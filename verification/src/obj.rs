//! Objects of a chart: what happens at one position of the time line.

use vstd::prelude::*;
use crate::key::Key;
use crate::lane::Lane;
use crate::ratio::Ratio;

verus! {

/// Reference to a sound.
#[derive(Clone, Copy, Debug, PartialEq, Eq, Structural)]
pub struct SoundRef(pub Key);

/// Reference to an image.
#[derive(Clone, Copy, Debug, PartialEq, Eq, Structural)]
pub struct ImageRef(pub Key);

/// The layers of the background animation.
#[derive(Clone, Copy, Debug, PartialEq, Eq, Structural)]
pub enum BGALayer {
    /// The lowest layer.
    Layer1,
    /// The middle layer.
    Layer2,
    /// The highest layer.
    Layer3,
    /// The layer shown for a moment after a missed object.
    PoorBGA,
}

/// The number of layers.
pub const NLAYERS: usize = 4;

impl BGALayer {
    /// The place of the layer in a list of layers.
    pub open spec fn index_of(self) -> int {
        match self {
            BGALayer::Layer1 => 0,
            BGALayer::Layer2 => 1,
            BGALayer::Layer3 => 2,
            BGALayer::PoorBGA => 3,
        }
    }

    /// The place of the layer in a list of layers.
    pub fn index(&self) -> (r: usize)
        ensures
            r == self.index_of(),
            r < NLAYERS,
    {
        match self {
            BGALayer::Layer1 => 0,
            BGALayer::Layer2 => 1,
            BGALayer::Layer3 => 2,
            BGALayer::PoorBGA => 3,
        }
    }
}

/// Beats per minute: what turns measures into time. A negative tempo
/// makes the chart run backwards and so ends it.
#[derive(Clone, Copy, Debug, PartialEq, Eq)]
pub struct BPM(pub Ratio);

/// A length of time, given in seconds or in measures.
#[derive(Clone, Copy, Debug, PartialEq, Eq)]
pub enum Duration {
    Seconds(Ratio),
    Measures(Ratio),
}

/// What a bomb takes from the gauge: a share of the full gauge, or all.
#[derive(Clone, Copy, Debug, PartialEq, Eq)]
pub enum Damage {
    GaugeDamage(Ratio),
    InstantDeath,
}

/// What an object is, without its position.
#[derive(Clone, Copy, Debug, PartialEq, Eq)]
pub enum ObjData {
    /// A removed object. It exists only while a chart is being cleaned.
    Deleted,
    /// A note that is seen, played and graded.
    Visible(Lane, Option<SoundRef>),
    /// A note that only gives the key its sound.
    Invisible(Lane, Option<SoundRef>),
    /// The start of a long note.
    LNStart(Lane, Option<SoundRef>),
    /// The end of a long note.
    LNDone(Lane, Option<SoundRef>),
    /// A bomb, which hurts when its key is down as it passes.
    Bomb(Lane, Option<SoundRef>, Damage),
    /// A sound played by the chart itself.
    BGM(SoundRef),
    /// Puts an image, or none, on a layer.
    SetBGA(BGALayer, Option<ImageRef>),
    /// Changes the tempo.
    SetBPM(BPM),
    /// Holds the chart still for some time.
    Stop(Duration),
}

impl ObjData {
    /// The lane of a note or bomb.
    pub open spec fn lane(self) -> Option<Lane> {
        match self {
            ObjData::Visible(lane, _) => Some(lane),
            ObjData::Invisible(lane, _) => Some(lane),
            ObjData::LNStart(lane, _) => Some(lane),
            ObjData::LNDone(lane, _) => Some(lane),
            ObjData::Bomb(lane, _, _) => Some(lane),
            _ => None,
        }
    }

    /// The sound of a note.
    pub open spec fn note_sound(self) -> Option<SoundRef> {
        match self {
            ObjData::Visible(_, sound) => sound,
            ObjData::Invisible(_, sound) => sound,
            ObjData::LNStart(_, sound) => sound,
            ObjData::LNDone(_, sound) => sound,
            _ => None,
        }
    }

    /// Whether this is a note: visible, invisible, or an end of a long note.
    pub open spec fn is_note(self) -> bool {
        self is Visible || self is Invisible || self is LNStart || self is LNDone
    }

    /// Every sound the object may play.
    pub open spec fn all_sounds(self) -> Seq<SoundRef> {
        match self {
            ObjData::Visible(_, Some(sound)) => seq![sound],
            ObjData::Invisible(_, Some(sound)) => seq![sound],
            ObjData::LNStart(_, Some(sound)) => seq![sound],
            ObjData::LNDone(_, Some(sound)) => seq![sound],
            ObjData::Bomb(_, Some(sound), _) => seq![sound],
            ObjData::BGM(sound) => seq![sound],
            _ => seq![],
        }
    }

    /// The sound played when the key goes down on the object.
    pub open spec fn sound_on_press(self) -> Option<SoundRef> {
        match self {
            ObjData::Visible(_, sound) => sound,
            ObjData::Invisible(_, sound) => sound,
            ObjData::LNStart(_, sound) => sound,
            _ => None,
        }
    }

    /// The sound played when the key is let go on the object.
    pub open spec fn sound_on_release(self) -> Option<SoundRef> {
        match self {
            ObjData::LNDone(_, sound) => sound,
            _ => None,
        }
    }

    /// The sound played when the object passes a key that is down.
    pub open spec fn sound_on_pass(self) -> Option<SoundRef> {
        match self {
            ObjData::Bomb(_, sound, _) => sound,
            _ => None,
        }
    }

    /// Every image the object shows.
    pub open spec fn all_images(self) -> Seq<ImageRef> {
        match self {
            ObjData::SetBGA(_, Some(image)) => seq![image],
            _ => seq![],
        }
    }

    /// The damage done when the object passes a key that is down.
    pub open spec fn damage_on_pass(self) -> Option<Damage> {
        match self {
            ObjData::Bomb(_, _, damage) => Some(damage),
            _ => None,
        }
    }

    /// What is left of an object that may not stay: its sound as
    /// background music, or nothing.
    pub open spec fn demoted(self) -> ObjData {
        match self.note_sound() {
            Some(sound) => ObjData::BGM(sound),
            None => ObjData::Deleted,
        }
    }

    /// The same object in another lane.
    pub open spec fn in_lane(self, lane: Lane) -> ObjData {
        match self {
            ObjData::Visible(_, sound) => ObjData::Visible(lane, sound),
            ObjData::Invisible(_, sound) => ObjData::Invisible(lane, sound),
            ObjData::LNStart(_, sound) => ObjData::LNStart(lane, sound),
            ObjData::LNDone(_, sound) => ObjData::LNDone(lane, sound),
            ObjData::Bomb(_, sound, damage) => ObjData::Bomb(lane, sound, damage),
            other => other,
        }
    }
}

/// An object of the chart: a position in measures, and what is there.
#[derive(Clone, Copy, Debug, PartialEq, Eq)]
pub struct Obj {
    /// The position, in measures.
    pub time: Ratio,
    /// What is at that position.
    pub data: ObjData,
}

fn sound_of(sref: Option<Key>) -> (r: Option<SoundRef>)
    ensures
        r == match sref {
            Some(key) => Some(SoundRef(key)),
            None => None,
        },
{
    match sref {
        Some(key) => Some(SoundRef(key)),
        None => None,
    }
}

#[allow(non_snake_case)]
impl Obj {
    /// Makes a visible note.
    pub fn Visible(time: Ratio, lane: Lane, sref: Option<Key>) -> (r: Obj)
        ensures
            r.time == time,
            r.data == ObjData::Visible(lane, sound_key(sref)),
    {
        Obj { time, data: ObjData::Visible(lane, sound_of(sref)) }
    }

    /// Makes an invisible note.
    pub fn Invisible(time: Ratio, lane: Lane, sref: Option<Key>) -> (r: Obj)
        ensures
            r.time == time,
            r.data == ObjData::Invisible(lane, sound_key(sref)),
    {
        Obj { time, data: ObjData::Invisible(lane, sound_of(sref)) }
    }

    /// Makes the start of a long note.
    pub fn LNStart(time: Ratio, lane: Lane, sref: Option<Key>) -> (r: Obj)
        ensures
            r.time == time,
            r.data == ObjData::LNStart(lane, sound_key(sref)),
    {
        Obj { time, data: ObjData::LNStart(lane, sound_of(sref)) }
    }

    /// Makes the end of a long note.
    pub fn LNDone(time: Ratio, lane: Lane, sref: Option<Key>) -> (r: Obj)
        ensures
            r.time == time,
            r.data == ObjData::LNDone(lane, sound_key(sref)),
    {
        Obj { time, data: ObjData::LNDone(lane, sound_of(sref)) }
    }

    /// Makes a bomb.
    pub fn Bomb(time: Ratio, lane: Lane, sref: Option<Key>, damage: Damage) -> (r: Obj)
        ensures
            r.time == time,
            r.data == ObjData::Bomb(lane, sound_key(sref), damage),
    {
        Obj { time, data: ObjData::Bomb(lane, sound_of(sref), damage) }
    }

    /// Makes a background sound.
    pub fn BGM(time: Ratio, sref: Key) -> (r: Obj)
        ensures
            r.time == time,
            r.data == ObjData::BGM(SoundRef(sref)),
    {
        Obj { time, data: ObjData::BGM(SoundRef(sref)) }
    }

    /// Makes a change of image on a layer.
    pub fn SetBGA(time: Ratio, layer: BGALayer, iref: Option<Key>) -> (r: Obj)
        ensures
            r.time == time,
            r.data == ObjData::SetBGA(
                layer,
                match iref {
                    Some(key) => Some(ImageRef(key)),
                    None => None,
                },
            ),
    {
        let image = match iref {
            Some(key) => Some(ImageRef(key)),
            None => None,
        };
        Obj { time, data: ObjData::SetBGA(layer, image) }
    }

    /// Makes a change of tempo.
    pub fn SetBPM(time: Ratio, bpm: BPM) -> (r: Obj)
        ensures
            r.time == time,
            r.data == ObjData::SetBPM(bpm),
    {
        Obj { time, data: ObjData::SetBPM(bpm) }
    }

    /// Makes a stop.
    pub fn Stop(time: Ratio, duration: Duration) -> (r: Obj)
        ensures
            r.time == time,
            r.data == ObjData::Stop(duration),
    {
        Obj { time, data: ObjData::Stop(duration) }
    }

    /// The number of the measure that holds the object.
    pub fn measure(&self) -> (r: i64)
        ensures
            r == self.time@.floor(),
    {
        self.time.floor()
    }
}

/// The sound reference made of a key, if there is one.
pub open spec fn sound_key(sref: Option<Key>) -> Option<SoundRef> {
    match sref {
        Some(key) => Some(SoundRef(key)),
        None => None,
    }
}

/// Questions that can be asked of an object.
pub trait ObjQueryOps: Sized {
    /// What the object is.
    spec fn as_data(&self) -> ObjData;

    /// Whether it is a visible note.
    fn is_visible(&self) -> (r: bool)
        ensures
            r == (self.as_data() is Visible),
    ;

    /// Whether it is an invisible note.
    fn is_invisible(&self) -> (r: bool)
        ensures
            r == (self.as_data() is Invisible),
    ;

    /// Whether it is the start of a long note.
    fn is_lnstart(&self) -> (r: bool)
        ensures
            r == (self.as_data() is LNStart),
    ;

    /// Whether it is the end of a long note.
    fn is_lndone(&self) -> (r: bool)
        ensures
            r == (self.as_data() is LNDone),
    ;

    /// Whether it is either end of a long note.
    fn is_ln(&self) -> (r: bool)
        ensures
            r == (self.as_data() is LNStart || self.as_data() is LNDone),
    ;

    /// Whether it is a bomb.
    fn is_bomb(&self) -> (r: bool)
        ensures
            r == (self.as_data() is Bomb),
    ;

    /// Whether it can give its sound to a key that is pressed near it.
    fn is_soundable(&self) -> (r: bool)
        ensures
            r == self.as_data().is_note(),
    ;

    /// Whether it is graded.
    fn is_gradable(&self) -> (r: bool)
        ensures
            r == (self.as_data() is Visible || self.as_data() is LNStart
                || self.as_data() is LNDone),
    ;

    /// Whether it is drawn.
    fn is_renderable(&self) -> (r: bool)
        ensures
            r == (self.as_data() is Visible || self.as_data() is LNStart
                || self.as_data() is LNDone || self.as_data() is Bomb),
    ;

    /// Whether it lies in a lane.
    fn is_object(&self) -> (r: bool)
        ensures
            r == (self.as_data().is_note() || self.as_data() is Bomb),
    ;

    /// Whether it is a background sound.
    fn is_bgm(&self) -> (r: bool)
        ensures
            r == (self.as_data() is BGM),
    ;

    /// Whether it changes the image of a layer.
    fn is_setbga(&self) -> (r: bool)
        ensures
            r == (self.as_data() is SetBGA),
    ;

    /// Whether it changes the tempo.
    fn is_setbpm(&self) -> (r: bool)
        ensures
            r == (self.as_data() is SetBPM),
    ;

    /// Whether it stops the chart.
    fn is_stop(&self) -> (r: bool)
        ensures
            r == (self.as_data() is Stop),
    ;

    /// The lane, if it lies in one.
    fn object_lane(&self) -> (r: Option<Lane>)
        ensures
            r == self.as_data().lane(),
    ;

    /// Every sound it may play.
    fn sounds(&self) -> (r: Vec<SoundRef>)
        ensures
            r@ == self.as_data().all_sounds(),
    ;

    /// The sound played when the key goes down on it.
    fn keydown_sound(&self) -> (r: Option<SoundRef>)
        ensures
            r == self.as_data().sound_on_press(),
    ;

    /// The sound played when the key is let go on it.
    fn keyup_sound(&self) -> (r: Option<SoundRef>)
        ensures
            r == self.as_data().sound_on_release(),
    ;

    /// The sound played when it passes a key that is down.
    fn through_sound(&self) -> (r: Option<SoundRef>)
        ensures
            r == self.as_data().sound_on_pass(),
    ;

    /// Every image it shows.
    fn images(&self) -> (r: Vec<ImageRef>)
        ensures
            r@ == self.as_data().all_images(),
    ;

    /// The damage done when it passes a key that is down.
    fn through_damage(&self) -> (r: Option<Damage>)
        ensures
            r == self.as_data().damage_on_pass(),
    ;
}

/// Turning one kind of note into another, in place and lane.
pub trait ObjConvOps: ObjQueryOps {
    /// The same value with other data.
    spec fn with_data(&self, data: ObjData) -> Self;

    /// The visible note with the lane and sound of this note.
    fn to_visible(&self) -> (r: Self)
        requires
            self.as_data().is_note(),
        ensures
            r == self.with_data(
                ObjData::Visible(self.as_data().lane().unwrap(), self.as_data().note_sound()),
            ),
    ;

    /// The invisible note with the lane and sound of this note.
    fn to_invisible(&self) -> (r: Self)
        requires
            self.as_data().is_note(),
        ensures
            r == self.with_data(
                ObjData::Invisible(self.as_data().lane().unwrap(), self.as_data().note_sound()),
            ),
    ;

    /// The start of a long note with the lane and sound of this note.
    fn to_lnstart(&self) -> (r: Self)
        requires
            self.as_data().is_note(),
        ensures
            r == self.with_data(
                ObjData::LNStart(self.as_data().lane().unwrap(), self.as_data().note_sound()),
            ),
    ;

    /// The end of a long note with the lane and sound of this note.
    fn to_lndone(&self) -> (r: Self)
        requires
            self.as_data().is_note(),
        ensures
            r == self.with_data(
                ObjData::LNDone(self.as_data().lane().unwrap(), self.as_data().note_sound()),
            ),
    ;
}

impl ObjQueryOps for ObjData {
    open spec fn as_data(&self) -> ObjData {
        *self
    }

    fn is_visible(&self) -> (r: bool) {
        matches!(self, ObjData::Visible(..))
    }

    fn is_invisible(&self) -> (r: bool) {
        matches!(self, ObjData::Invisible(..))
    }

    fn is_lnstart(&self) -> (r: bool) {
        matches!(self, ObjData::LNStart(..))
    }

    fn is_lndone(&self) -> (r: bool) {
        matches!(self, ObjData::LNDone(..))
    }

    fn is_ln(&self) -> (r: bool) {
        matches!(self, ObjData::LNStart(..) | ObjData::LNDone(..))
    }

    fn is_bomb(&self) -> (r: bool) {
        matches!(self, ObjData::Bomb(..))
    }

    fn is_soundable(&self) -> (r: bool) {
        matches!(
            self,
            ObjData::Visible(..) | ObjData::Invisible(..) | ObjData::LNStart(..) | ObjData::LNDone(..)
        )
    }

    fn is_gradable(&self) -> (r: bool) {
        matches!(self, ObjData::Visible(..) | ObjData::LNStart(..) | ObjData::LNDone(..))
    }

    fn is_renderable(&self) -> (r: bool) {
        matches!(
            self,
            ObjData::Visible(..) | ObjData::LNStart(..) | ObjData::LNDone(..) | ObjData::Bomb(..)
        )
    }

    fn is_object(&self) -> (r: bool) {
        matches!(
            self,
            ObjData::Visible(..) | ObjData::Invisible(..) | ObjData::LNStart(..)
                | ObjData::LNDone(..) | ObjData::Bomb(..)
        )
    }

    fn is_bgm(&self) -> (r: bool) {
        matches!(self, ObjData::BGM(..))
    }

    fn is_setbga(&self) -> (r: bool) {
        matches!(self, ObjData::SetBGA(..))
    }

    fn is_setbpm(&self) -> (r: bool) {
        matches!(self, ObjData::SetBPM(..))
    }

    fn is_stop(&self) -> (r: bool) {
        matches!(self, ObjData::Stop(..))
    }

    fn object_lane(&self) -> (r: Option<Lane>) {
        match self {
            ObjData::Visible(lane, _) => Some(*lane),
            ObjData::Invisible(lane, _) => Some(*lane),
            ObjData::LNStart(lane, _) => Some(*lane),
            ObjData::LNDone(lane, _) => Some(*lane),
            ObjData::Bomb(lane, _, _) => Some(*lane),
            _ => None,
        }
    }

    fn sounds(&self) -> (r: Vec<SoundRef>) {
        let mut r: Vec<SoundRef> = Vec::new();
        match self {
            ObjData::Visible(_, Some(sound)) => r.push(*sound),
            ObjData::Invisible(_, Some(sound)) => r.push(*sound),
            ObjData::LNStart(_, Some(sound)) => r.push(*sound),
            ObjData::LNDone(_, Some(sound)) => r.push(*sound),
            ObjData::Bomb(_, Some(sound), _) => r.push(*sound),
            ObjData::BGM(sound) => r.push(*sound),
            _ => {},
        }
        assert(r@ =~= self.all_sounds());
        r
    }

    fn keydown_sound(&self) -> (r: Option<SoundRef>) {
        match self {
            ObjData::Visible(_, sound) => *sound,
            ObjData::Invisible(_, sound) => *sound,
            ObjData::LNStart(_, sound) => *sound,
            _ => None,
        }
    }

    fn keyup_sound(&self) -> (r: Option<SoundRef>) {
        match self {
            ObjData::LNDone(_, sound) => *sound,
            _ => None,
        }
    }

    fn through_sound(&self) -> (r: Option<SoundRef>) {
        match self {
            ObjData::Bomb(_, sound, _) => *sound,
            _ => None,
        }
    }

    fn images(&self) -> (r: Vec<ImageRef>) {
        let mut r: Vec<ImageRef> = Vec::new();
        match self {
            ObjData::SetBGA(_, Some(image)) => r.push(*image),
            _ => {},
        }
        assert(r@ =~= self.all_images());
        r
    }

    fn through_damage(&self) -> (r: Option<Damage>) {
        match self {
            ObjData::Bomb(_, _, damage) => Some(*damage),
            _ => None,
        }
    }
}

impl ObjData {
    /// The sound of a note, and `None` for anything else.
    pub fn sound(&self) -> (r: Option<SoundRef>)
        ensures
            r == self.note_sound(),
    {
        match self {
            ObjData::Visible(_, sound) => *sound,
            ObjData::Invisible(_, sound) => *sound,
            ObjData::LNStart(_, sound) => *sound,
            ObjData::LNDone(_, sound) => *sound,
            _ => None,
        }
    }

    /// Whether the object has been removed.
    pub fn is_deleted(&self) -> (r: bool)
        ensures
            r == (*self is Deleted),
    {
        matches!(self, ObjData::Deleted)
    }
}

impl ObjConvOps for ObjData {
    open spec fn with_data(&self, data: ObjData) -> ObjData {
        data
    }

    fn to_visible(&self) -> (r: ObjData) {
        ObjData::Visible(self.object_lane().unwrap(), self.sound())
    }

    fn to_invisible(&self) -> (r: ObjData) {
        ObjData::Invisible(self.object_lane().unwrap(), self.sound())
    }

    fn to_lnstart(&self) -> (r: ObjData) {
        ObjData::LNStart(self.object_lane().unwrap(), self.sound())
    }

    fn to_lndone(&self) -> (r: ObjData) {
        ObjData::LNDone(self.object_lane().unwrap(), self.sound())
    }
}

impl ObjQueryOps for Obj {
    open spec fn as_data(&self) -> ObjData {
        self.data
    }

    fn is_visible(&self) -> (r: bool) {
        self.data.is_visible()
    }

    fn is_invisible(&self) -> (r: bool) {
        self.data.is_invisible()
    }

    fn is_lnstart(&self) -> (r: bool) {
        self.data.is_lnstart()
    }

    fn is_lndone(&self) -> (r: bool) {
        self.data.is_lndone()
    }

    fn is_ln(&self) -> (r: bool) {
        self.data.is_ln()
    }

    fn is_bomb(&self) -> (r: bool) {
        self.data.is_bomb()
    }

    fn is_soundable(&self) -> (r: bool) {
        self.data.is_soundable()
    }

    fn is_gradable(&self) -> (r: bool) {
        self.data.is_gradable()
    }

    fn is_renderable(&self) -> (r: bool) {
        self.data.is_renderable()
    }

    fn is_object(&self) -> (r: bool) {
        self.data.is_object()
    }

    fn is_bgm(&self) -> (r: bool) {
        self.data.is_bgm()
    }

    fn is_setbga(&self) -> (r: bool) {
        self.data.is_setbga()
    }

    fn is_setbpm(&self) -> (r: bool) {
        self.data.is_setbpm()
    }

    fn is_stop(&self) -> (r: bool) {
        self.data.is_stop()
    }

    fn object_lane(&self) -> (r: Option<Lane>) {
        self.data.object_lane()
    }

    fn sounds(&self) -> (r: Vec<SoundRef>) {
        self.data.sounds()
    }

    fn keydown_sound(&self) -> (r: Option<SoundRef>) {
        self.data.keydown_sound()
    }

    fn keyup_sound(&self) -> (r: Option<SoundRef>) {
        self.data.keyup_sound()
    }

    fn through_sound(&self) -> (r: Option<SoundRef>) {
        self.data.through_sound()
    }

    fn images(&self) -> (r: Vec<ImageRef>) {
        self.data.images()
    }

    fn through_damage(&self) -> (r: Option<Damage>) {
        self.data.through_damage()
    }
}

impl ObjConvOps for Obj {
    open spec fn with_data(&self, data: ObjData) -> Obj {
        Obj { time: self.time, data }
    }

    fn to_visible(&self) -> (r: Obj) {
        Obj { time: self.time, data: self.data.to_visible() }
    }

    fn to_invisible(&self) -> (r: Obj) {
        Obj { time: self.time, data: self.data.to_invisible() }
    }

    fn to_lnstart(&self) -> (r: Obj) {
        Obj { time: self.time, data: self.data.to_lnstart() }
    }

    fn to_lndone(&self) -> (r: Obj) {
        Obj { time: self.time, data: self.data.to_lndone() }
    }
}

} // verus!
