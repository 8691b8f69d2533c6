//! The chart: what a source file describes.

use vstd::prelude::*;
use crate::key::MAXKEY;
use crate::key::Key;
use crate::obj::{ImageRef, Obj, BPM};
use crate::ratio::Ratio;

verus! {

/// A command that copies a part of one image into another, once both are
/// loaded. The part `(x1, y1)-(x2, y2)` of `src` goes to `(dx, dy)` in `dst`.
#[derive(Clone, Copy, Debug, PartialEq, Eq, Structural)]
pub struct BlitCmd {
    pub dst: ImageRef,
    pub src: ImageRef,
    pub x1: i64,
    pub y1: i64,
    pub x2: i64,
    pub y2: i64,
    pub dx: i64,
    pub dy: i64,
}

/// The width of the images of a chart in pixels.
pub const BGAW: usize = 256;

/// The height of the images of a chart in pixels.
pub const BGAH: usize = 256;

/// What a blit command copies: the part of the size `(w, h)` at `(x, y)`
/// of the one image goes to `(dx, dy)` in the other.
#[derive(Clone, Copy, Debug, PartialEq, Eq)]
pub struct BlitArea {
    pub x: u64,
    pub y: u64,
    pub dx: u64,
    pub dy: u64,
    pub w: u64,
    pub h: u64,
}

/// The lesser of two numbers.
pub open spec fn least(a: int, b: int) -> int {
    if a < b {
        a
    } else {
        b
    }
}

/// The greater of two numbers.
pub open spec fn greatest(a: int, b: int) -> int {
    if a > b {
        a
    } else {
        b
    }
}

/// The end of a stretch that is to run from `from` to `to`, cut off
/// behind `most` pixels.
fn cut_end(from: i64, to: i64, most: usize) -> (r: i64)
    requires
        most <= 256,
    ensures
        r == least(to as int, from + most),
{
    if from > i64::MAX - (most as i64) || to < from + (most as i64) {
        to
    } else {
        from + (most as i64)
    }
}

impl BlitCmd {
    /// What the command copies. The part starts within the image and is
    /// no larger than an image of a chart; a command that leaves nothing
    /// of it, or whose goal lies before the image, copies nothing.
    pub open spec fn area_of(self) -> Option<BlitArea> {
        let x = greatest(self.x1 as int, 0);
        let y = greatest(self.y1 as int, 0);
        let w = least(self.x2 as int, self.x1 + BGAW) - x;
        let h = least(self.y2 as int, self.y1 + BGAH) - y;
        if w > 0 && h > 0 && self.dx >= 0 && self.dy >= 0 {
            Some(
                BlitArea {
                    x: x as u64,
                    y: y as u64,
                    dx: self.dx as u64,
                    dy: self.dy as u64,
                    w: w as u64,
                    h: h as u64,
                },
            )
        } else {
            None
        }
    }

    /// Finds what the command copies.
    pub fn area(&self) -> (r: Option<BlitArea>)
        ensures
            r == self.area_of(),
            r matches Some(a) ==> 0 < a.w <= BGAW && 0 < a.h <= BGAH,
    {
        let x: i64 = if self.x1 > 0 {
            self.x1
        } else {
            0
        };
        let y: i64 = if self.y1 > 0 {
            self.y1
        } else {
            0
        };
        let x2 = cut_end(self.x1, self.x2, BGAW);
        let y2 = cut_end(self.y1, self.y2, BGAH);
        if x < x2 && y < y2 && self.dx >= 0 && self.dy >= 0 {
            Some(
                BlitArea {
                    x: x as u64,
                    y: y as u64,
                    dx: self.dx as u64,
                    dy: self.dy as u64,
                    w: (x2 - x) as u64,
                    h: (y2 - y) as u64,
                },
            )
        } else {
            None
        }
    }
}

/// The value of `#PLAYER` for single play.
pub const SINGLE_PLAY: i64 = 1;

/// The value of `#PLAYER` for couple play: two panels, one for each side.
pub const COUPLE_PLAY: i64 = 2;

/// The value of `#PLAYER` for double play: both sides in one wide panel.
pub const DOUBLE_PLAY: i64 = 3;

/// A chart.
#[derive(Clone, Debug, PartialEq, Eq)]
pub struct Bms {
    /// Title.
    pub title: Option<Vec<u8>>,
    /// Genre.
    pub genre: Option<Vec<u8>>,
    /// Artist.
    pub artist: Option<Vec<u8>>,
    /// Path of the image for the loading screen.
    pub stagefile: Option<Vec<u8>>,
    /// Path under which the other resources are looked for.
    pub basepath: Option<Vec<u8>>,
    /// Game mode: `SINGLE_PLAY`, `COUPLE_PLAY` or `DOUBLE_PLAY`.
    pub player: i64,
    /// Level of the chart. It changes nothing in the play.
    pub playlevel: i64,
    /// How wide the grading windows are. Higher is easier.
    pub rank: i64,
    /// The tempo at the start.
    pub initbpm: BPM,
    /// Paths of the sounds, by key.
    pub sndpath: Vec<Option<Vec<u8>>>,
    /// Paths of the images and movies, by key.
    pub imgpath: Vec<Option<Vec<u8>>>,
    /// The commands to run once the images are loaded.
    pub blitcmd: Vec<BlitCmd>,
    /// The objects. A sanitized chart has them in the order of their
    /// positions.
    pub objs: Vec<Obj>,
    /// The scaling factor of each measure. Measures behind the end of the
    /// list have the factor one.
    pub shortens: Vec<Ratio>,
    /// The number of measures. The play ends behind the last one.
    pub nmeasures: usize,
}

/// A chart as a mathematical value: texts and lists are sequences.
pub struct BmsModel {
    pub title: Option<Seq<u8>>,
    pub genre: Option<Seq<u8>>,
    pub artist: Option<Seq<u8>>,
    pub stagefile: Option<Seq<u8>>,
    pub basepath: Option<Seq<u8>>,
    pub player: i64,
    pub playlevel: i64,
    pub rank: i64,
    pub initbpm: BPM,
    pub sndpath: Seq<Option<Seq<u8>>>,
    pub imgpath: Seq<Option<Seq<u8>>>,
    pub blitcmd: Seq<BlitCmd>,
    pub objs: Seq<Obj>,
    pub shortens: Seq<Ratio>,
    pub nmeasures: usize,
}

/// A text, if there is one, as a sequence.
pub open spec fn text_view(t: Option<Vec<u8>>) -> Option<Seq<u8>> {
    match t {
        Some(v) => Some(v@),
        None => None,
    }
}

/// A table of texts as a sequence of sequences.
pub open spec fn paths_view(v: Seq<Option<Vec<u8>>>) -> Seq<Option<Seq<u8>>> {
    Seq::new(v.len(), |i: int| text_view(v[i]))
}

impl View for Bms {
    type V = BmsModel;

    open spec fn view(&self) -> BmsModel {
        BmsModel {
            title: text_view(self.title),
            genre: text_view(self.genre),
            artist: text_view(self.artist),
            stagefile: text_view(self.stagefile),
            basepath: text_view(self.basepath),
            player: self.player,
            playlevel: self.playlevel,
            rank: self.rank,
            initbpm: self.initbpm,
            sndpath: paths_view(self.sndpath@),
            imgpath: paths_view(self.imgpath@),
            blitcmd: self.blitcmd@,
            objs: self.objs@,
            shortens: self.shortens@,
            nmeasures: self.nmeasures,
        }
    }
}

/// The tempo of a chart that names none: 130 beats per minute.
pub open spec fn default_bpm() -> BPM {
    BPM(crate::ratio::canonical(130real))
}

impl BmsModel {
    /// The chart that an empty file describes.
    pub open spec fn empty() -> BmsModel {
        BmsModel {
            title: None,
            genre: None,
            artist: None,
            stagefile: None,
            basepath: None,
            player: SINGLE_PLAY,
            playlevel: 0,
            rank: 2,
            initbpm: default_bpm(),
            sndpath: Seq::new(MAXKEY as nat, |i: int| None),
            imgpath: Seq::new(MAXKEY as nat, |i: int| None),
            blitcmd: seq![],
            objs: seq![],
            shortens: seq![],
            nmeasures: 0,
        }
    }
}

/// A table with no text for any key.
pub fn empty_paths() -> (r: Vec<Option<Vec<u8>>>)
    ensures
        paths_view(r@) == Seq::new(MAXKEY as nat, |i: int| None::<Seq<u8>>),
        r@.len() == MAXKEY,
{
    let mut r: Vec<Option<Vec<u8>>> = Vec::new();
    let mut i: i64 = 0;
    while i < MAXKEY
        invariant
            0 <= i <= MAXKEY,
            r@.len() == i,
            forall|j: int| 0 <= j < i ==> r@[j] is None,
        decreases MAXKEY - i,
    {
        r.push(None);
        i += 1;
    }
    assert(paths_view(r@) =~= Seq::new(MAXKEY as nat, |i: int| None::<Seq<u8>>));
    r
}

impl Bms {
    /// The chart that an empty file describes.
    pub fn new() -> (r: Bms)
        ensures
            r@ == BmsModel::empty(),
    {
        let initbpm = BPM(Ratio::from_int(130));
        Bms {
            title: None,
            genre: None,
            artist: None,
            stagefile: None,
            basepath: None,
            player: SINGLE_PLAY,
            playlevel: 0,
            rank: 2,
            initbpm,
            sndpath: empty_paths(),
            imgpath: empty_paths(),
            blitcmd: Vec::new(),
            objs: Vec::new(),
            shortens: Vec::new(),
            nmeasures: 0,
        }
    }
}

} // verus!
