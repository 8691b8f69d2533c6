//! What is chosen before a play starts, and small things around it.

use vstd::prelude::*;
use crate::keyspec::KeySpec;
use crate::lane::{KeyKind, Lane};
use crate::modf::Modf;
use crate::ratio::Ratio;

verus! {

/// The name and version of the program.
pub fn version() -> (r: Vec<u8>)
    ensures
        r@ == version_text(),
{
    let r = vec!['A' as u8, 'n' as u8, 'g' as u8, 'o' as u8, 'l' as u8, 'm' as u8, 'o' as u8, 'i' as u8, 's' as u8, ' ' as u8, '2' as u8, '.' as u8, '0' as u8, '.' as u8, '0' as u8, ' ' as u8, 'a' as u8, 'l' as u8, 'p' as u8, 'h' as u8, 'a' as u8, ' ' as u8, '2' as u8, ' ' as u8, '(' as u8, 'r' as u8, 'u' as u8, 's' as u8, 't' as u8, ' ' as u8, 'e' as u8, 'd' as u8, 'i' as u8, 't' as u8, 'i' as u8, 'o' as u8, 'n' as u8, ')' as u8];
    assert(r@ =~= version_text());
    r
}

/// The name and version of the program: `Angolmois 2.0.0 alpha 2 (rust edition)`.
pub open spec fn version_text() -> Seq<u8> {
    seq!['A' as u8, 'n' as u8, 'g' as u8, 'o' as u8, 'l' as u8, 'm' as u8, 'o' as u8, 'i' as u8, 's' as u8, ' ' as u8, '2' as u8, '.' as u8, '0' as u8, '.' as u8, '0' as u8, ' ' as u8, 'a' as u8, 'l' as u8, 'p' as u8, 'h' as u8, 'a' as u8, ' ' as u8, '2' as u8, ' ' as u8, '(' as u8, 'r' as u8, 'u' as u8, 's' as u8, 't' as u8, ' ' as u8, 'e' as u8, 'd' as u8, 'i' as u8, 't' as u8, 'i' as u8, 'o' as u8, 'n' as u8, ')' as u8]
}

/// How a chart is played.
#[derive(Clone, Copy, Debug, PartialEq, Eq, Structural)]
pub enum Mode {
    /// By the player, with the screen.
    PlayMode,
    /// By itself, with the screen.
    AutoPlayMode,
    /// By itself, without the screen but for the images of the chart.
    ExclusiveMode,
}

/// How the images of a chart are shown.
#[derive(Clone, Copy, Debug, PartialEq, Eq, Structural)]
pub enum Bga {
    /// Images and movies are shown.
    BgaAndMovie,
    /// Images are shown, and movies are not loaded.
    BgaButNoMovie,
    /// Nothing is shown.
    NoBga,
}

/// What is chosen before a play starts.
#[derive(Clone, Debug, PartialEq, Eq)]
pub struct Options {
    /// The path of the chart.
    pub bmspath: Vec<u8>,
    /// How the chart is played.
    pub mode: Mode,
    /// The modifier, if one is asked for.
    pub modf: Option<Modf>,
    /// How the images are shown.
    pub bga: Bga,
    /// Whether title, artist and the like are shown.
    pub showinfo: bool,
    /// Whether the whole screen is taken.
    pub fullscreen: bool,
    /// The number of the joystick, if one is used.
    pub joystick: Option<usize>,
    /// The name of the layout, if one is asked for.
    pub preset: Option<Vec<u8>>,
    /// The key specification of the left side, if one is given.
    pub leftkeys: Option<Vec<u8>>,
    /// The key specification of the right side, if one is given.
    pub rightkeys: Option<Vec<u8>>,
    /// The speed at which the notes fall at the start.
    pub playspeed: Ratio,
}

impl Options {
    /// Whether the chart plays without the screen.
    pub fn is_exclusive(&self) -> (r: bool)
        ensures
            r == (self.mode == Mode::ExclusiveMode),
    {
        matches!(self.mode, Mode::ExclusiveMode)
    }

    /// Whether the chart plays itself.
    pub fn is_autoplay(&self) -> (r: bool)
        ensures
            r == (self.mode != Mode::PlayMode),
    {
        !matches!(self.mode, Mode::PlayMode)
    }

    /// Whether images are shown.
    pub fn has_bga(&self) -> (r: bool)
        ensures
            r == (self.bga != Bga::NoBga),
    {
        !matches!(self.bga, Bga::NoBga)
    }

    /// Whether movies are shown.
    pub fn has_movie(&self) -> (r: bool)
        ensures
            r == (self.bga == Bga::BgaAndMovie),
    {
        matches!(self.bga, Bga::BgaAndMovie)
    }

    /// Whether there is a screen: there is unless the chart plays without
    /// it and shows no images.
    pub fn has_screen(&self) -> (r: bool)
        ensures
            r == (self.mode != Mode::ExclusiveMode || self.bga != Bga::NoBga),
    {
        !self.is_exclusive() || self.has_bga()
    }
}

/// A timer that lets something happen only every so often.
#[derive(Clone, Copy, Debug, PartialEq, Eq, Structural)]
pub struct Ticker {
    /// The least time between two happenings, in milliseconds.
    pub interval: u64,
    /// The time of the last happening, if there was one since the ticker was
    /// made or reset.
    pub lastinfo: Option<u64>,
}

impl Ticker {
    /// Whether it is time again at the time `now`: it is at the first
    /// call, and else once the interval has passed since the last time. A
    /// clock that went backwards counts as no time passed.
    pub open spec fn due(self, now: u64) -> bool {
        match self.lastinfo {
            Some(t) => now >= t && now - t >= self.interval,
            None => true,
        }
    }

    /// A ticker with an interval of 47 milliseconds, about 21 times a
    /// second.
    pub fn new() -> (r: Ticker)
        ensures
            r == (Ticker { interval: 47, lastinfo: None }),
    {
        Ticker { interval: 47, lastinfo: None }
    }

    /// Calls `f` if it is time again at the time `now`, and then takes
    /// `now` as the last time. Says whether it was time.
    pub fn on_tick<F: FnOnce()>(&mut self, now: u64, f: F) -> (r: bool)
        requires
            call_requires(f, ()),
        ensures
            r == old(self).due(now),
            r ==> call_ensures(f, (), ()),
            *final(self) == if r {
                Ticker { lastinfo: Some(now), ..*old(self) }
            } else {
                *old(self)
            },
    {
        let due = match self.lastinfo {
            Some(t) => now >= t && now - t >= self.interval,
            None => true,
        };
        if due {
            self.lastinfo = Some(now);
            f();
        }
        due
    }

    /// Makes the next call of `on_tick` say that it is time.
    pub fn reset(&mut self)
        ensures
            *final(self) == (Ticker { lastinfo: None, ..*old(self) }),
    {
        self.lastinfo = None;
    }
}

/// What an input element stands for.
#[derive(Clone, Copy, Debug, PartialEq, Eq, Structural)]
pub enum VirtualInput {
    /// The key of a lane.
    LaneInput(Lane),
    /// The key that slows the notes down.
    SpeedDownInput,
    /// The key that speeds the notes up.
    SpeedUpInput,
}

impl VirtualInput {
    /// Whether the input is in use under the key specification: the key of
    /// a lane is if the lane is of the kind `kind`, and the keys for the
    /// speed always are.
    pub fn active_in_key_spec(&self, kind: KeyKind, keyspec: &KeySpec) -> (r: bool)
        ensures
            r == match *self {
                VirtualInput::LaneInput(lane) => lane.0 < keyspec.kinds@.len()
                    && keyspec.kinds@[lane.0 as int] == Some(kind),
                _ => true,
            },
    {
        match self {
            VirtualInput::LaneInput(lane) => {
                if lane.0 < keyspec.kinds.len() {
                    match keyspec.kinds[lane.0] {
                        Some(k) => k == kind,
                        None => false,
                    }
                } else {
                    false
                }
            },
            _ => true,
        }
    }
}

} // verus!
