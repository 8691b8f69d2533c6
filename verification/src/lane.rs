//! Lanes and the kinds of keys that play them.

use vstd::prelude::*;
use crate::key::Key;

verus! {

/// The number of lanes: 36 for each of two sides.
pub const NLANES: usize = 72;

/// A column of the chart, played by one input element.
#[derive(Clone, Copy, Debug, PartialEq, Eq, Structural)]
pub struct Lane(pub usize);

/// Whether the channel `chan` carries objects of some lane.
pub open spec fn is_object_channel(chan: int) -> bool {
    let group = chan / 36;
    0 <= chan && (1 <= group <= 6 || group == 13 || group == 14)
}

/// The lane that the object channel `chan` feeds.
pub open spec fn channel_lane(chan: int) -> int {
    let group = chan / 36;
    let side: int = if group == 1 || group == 3 || group == 5 || group == 13 {
        0
    } else {
        1
    };
    side * 36 + chan % 36
}

impl Lane {
    /// Converts the number of an object channel to its lane.
    pub fn from_channel(chan: Key) -> (r: Lane)
        requires
            is_object_channel(chan.0 as int),
        ensures
            r.0 == channel_lane(chan.0 as int),
            r.0 < NLANES,
    {
        let group = chan.0 / 36;
        let side: usize = if group == 1 || group == 3 || group == 5 || group == 13 {
            0
        } else {
            1
        };
        Lane(side * 36 + (chan.0 % 36) as usize)
    }
}

/// The appearance of a lane. It does not change how the lane is played.
#[derive(Clone, Copy, Debug, PartialEq, Eq, Structural)]
pub enum KeyKind {
    /// White key of a keyboard.
    WhiteKey,
    /// White key drawn in yellow.
    WhiteKeyAlt,
    /// Black key of a keyboard.
    BlackKey,
    /// Scratch: wider than a key, and not counted as one.
    Scratch,
    /// Foot pedal: as the scratch, in another colour.
    FootPedal,
    /// White button.
    Button1,
    /// Yellow button.
    Button2,
    /// Green button.
    Button3,
    /// Navy button.
    Button4,
    /// Red button.
    Button5,
}

/// The kind that a mnemonic character of a key specification stands for.
pub open spec fn kind_of_char(c: u8) -> Option<KeyKind> {
    if c == 'a' as u8 {
        Some(KeyKind::WhiteKey)
    } else if c == 'y' as u8 {
        Some(KeyKind::WhiteKeyAlt)
    } else if c == 'b' as u8 {
        Some(KeyKind::BlackKey)
    } else if c == 's' as u8 {
        Some(KeyKind::Scratch)
    } else if c == 'p' as u8 {
        Some(KeyKind::FootPedal)
    } else if c == 'q' as u8 {
        Some(KeyKind::Button1)
    } else if c == 'w' as u8 {
        Some(KeyKind::Button2)
    } else if c == 'e' as u8 {
        Some(KeyKind::Button3)
    } else if c == 'r' as u8 {
        Some(KeyKind::Button4)
    } else if c == 't' as u8 {
        Some(KeyKind::Button5)
    } else {
        None
    }
}

/// The character under which a kind is looked up in an input mapping.
pub open spec fn char_of_kind(kind: KeyKind) -> u8 {
    match kind {
        KeyKind::WhiteKey => 'a' as u8,
        KeyKind::WhiteKeyAlt => 'y' as u8,
        KeyKind::BlackKey => 'b' as u8,
        KeyKind::Scratch => 's' as u8,
        KeyKind::FootPedal => 'p' as u8,
        KeyKind::Button1 => 'w' as u8,
        KeyKind::Button2 => 'e' as u8,
        KeyKind::Button3 => 'r' as u8,
        KeyKind::Button4 => 't' as u8,
        KeyKind::Button5 => 's' as u8,
    }
}

impl KeyKind {
    /// All kinds, in the order of their declaration.
    pub fn all() -> (r: [KeyKind; 10])
        ensures
            r@ == seq![
                KeyKind::WhiteKey,
                KeyKind::WhiteKeyAlt,
                KeyKind::BlackKey,
                KeyKind::Scratch,
                KeyKind::FootPedal,
                KeyKind::Button1,
                KeyKind::Button2,
                KeyKind::Button3,
                KeyKind::Button4,
                KeyKind::Button5,
            ],
    {
        let r = [
            KeyKind::WhiteKey,
            KeyKind::WhiteKeyAlt,
            KeyKind::BlackKey,
            KeyKind::Scratch,
            KeyKind::FootPedal,
            KeyKind::Button1,
            KeyKind::Button2,
            KeyKind::Button3,
            KeyKind::Button4,
            KeyKind::Button5,
        ];
        assert(r@ =~= seq![
            KeyKind::WhiteKey,
            KeyKind::WhiteKeyAlt,
            KeyKind::BlackKey,
            KeyKind::Scratch,
            KeyKind::FootPedal,
            KeyKind::Button1,
            KeyKind::Button2,
            KeyKind::Button3,
            KeyKind::Button4,
            KeyKind::Button5,
        ]);
        r
    }

    /// Converts a mnemonic character of a key specification to its kind.
    pub fn from_char(c: u8) -> (r: Option<KeyKind>)
        ensures
            r == kind_of_char(c),
    {
        if c == 'a' as u8 {
            Some(KeyKind::WhiteKey)
        } else if c == 'y' as u8 {
            Some(KeyKind::WhiteKeyAlt)
        } else if c == 'b' as u8 {
            Some(KeyKind::BlackKey)
        } else if c == 's' as u8 {
            Some(KeyKind::Scratch)
        } else if c == 'p' as u8 {
            Some(KeyKind::FootPedal)
        } else if c == 'q' as u8 {
            Some(KeyKind::Button1)
        } else if c == 'w' as u8 {
            Some(KeyKind::Button2)
        } else if c == 'e' as u8 {
            Some(KeyKind::Button3)
        } else if c == 'r' as u8 {
            Some(KeyKind::Button4)
        } else if c == 't' as u8 {
            Some(KeyKind::Button5)
        } else {
            None
        }
    }

    /// The character under which the kind is looked up in an input mapping.
    pub fn to_char(&self) -> (r: u8)
        ensures
            r == char_of_kind(*self),
    {
        match self {
            KeyKind::WhiteKey => 'a' as u8,
            KeyKind::WhiteKeyAlt => 'y' as u8,
            KeyKind::BlackKey => 'b' as u8,
            KeyKind::Scratch => 's' as u8,
            KeyKind::FootPedal => 'p' as u8,
            KeyKind::Button1 => 'w' as u8,
            KeyKind::Button2 => 'e' as u8,
            KeyKind::Button3 => 'r' as u8,
            KeyKind::Button4 => 't' as u8,
            KeyKind::Button5 => 's' as u8,
        }
    }

    /// Whether a lane of this kind counts towards the number of keys.
    /// Scratches and foot pedals do not.
    pub fn counts_as_key(&self) -> (r: bool)
        ensures
            r == (*self != KeyKind::Scratch && *self != KeyKind::FootPedal),
    {
        match self {
            KeyKind::Scratch | KeyKind::FootPedal => false,
            _ => true,
        }
    }
}

} // verus!
