//! Where the lanes stand on the screen.
//!
//! The lanes of the left side are lined up from the left edge of the
//! screen, those of the right side from the right edge, each with a gap
//! of one pixel behind it. A side that takes little room is moved towards
//! the middle.

use vstd::prelude::*;
use crate::keyspec::{KeySpec, KeySpecModel};
use crate::lane::{KeyKind, Lane};

verus! {

/// The width of the screen in pixels.
pub const SCREENW: usize = 800;

/// The height of the screen in pixels.
pub const SCREENH: usize = 600;

/// The room that a side has at least: one that takes less is moved
/// towards the middle by half of what is missing.
pub const CUTOFF: usize = 165;

/// The room that stays free of lanes at the right of the left side.
pub const LEFT_MARGIN: usize = 20;

/// The room that stays free between the two sides.
pub const MIDDLE_MARGIN: usize = 40;

/// The looks of a lane.
#[derive(Clone, Copy, Debug, PartialEq, Eq)]
pub struct LaneStyle {
    /// The left edge of the lane on the screen.
    pub left: usize,
    /// The left edge of the lane in the sprite of notes.
    pub spriteleft: usize,
    /// The left edge of the lane in the sprite of bombs.
    pub spritebombleft: usize,
    /// The width of the lane.
    pub width: usize,
    /// The colour of its notes: red, green and blue.
    pub basecolor: (u8, u8, u8),
}

/// The screen cannot hold the lanes.
#[derive(Clone, Copy, Debug, PartialEq, Eq)]
pub struct TooManyLanes;

/// The width of a lane of the kind.
pub open spec fn kind_width(kind: KeyKind) -> int {
    match kind {
        KeyKind::WhiteKey | KeyKind::WhiteKeyAlt | KeyKind::BlackKey => 25,
        KeyKind::Button1 | KeyKind::Button2 | KeyKind::Button3 | KeyKind::Button4 | KeyKind::Button5 => 30,
        KeyKind::Scratch | KeyKind::FootPedal => 40,
    }
}

/// The left edge of a lane of the kind in the sprite of notes.
pub open spec fn kind_sprite(kind: KeyKind) -> int {
    match kind {
        KeyKind::WhiteKey => 25,
        KeyKind::WhiteKeyAlt => 50,
        KeyKind::BlackKey => 75,
        KeyKind::Button1 => 130,
        KeyKind::Button2 => 160,
        KeyKind::Button3 => 190,
        KeyKind::Button4 => 220,
        KeyKind::Button5 => 250,
        KeyKind::Scratch => 320,
        KeyKind::FootPedal => 360,
    }
}

/// The left edge of a lane of the kind in the sprite of bombs: the lanes
/// of one width share one bomb.
pub open spec fn kind_bomb_sprite(kind: KeyKind) -> int {
    if kind_width(kind) == 25 {
        0
    } else if kind_width(kind) == 30 {
        100
    } else {
        280
    }
}

/// The colour of the notes of a lane of the kind.
pub open spec fn kind_color(kind: KeyKind) -> (u8, u8, u8) {
    match kind {
        KeyKind::WhiteKey => (0x80, 0x80, 0x80),
        KeyKind::WhiteKeyAlt => (0xf0, 0xe0, 0x80),
        KeyKind::BlackKey => (0x80, 0x80, 0xff),
        KeyKind::Button1 => (0xe0, 0xe0, 0xe0),
        KeyKind::Button2 => (0xff, 0xff, 0x40),
        KeyKind::Button3 => (0x80, 0xff, 0x80),
        KeyKind::Button4 => (0x80, 0x80, 0xff),
        KeyKind::Button5 => (0xff, 0x40, 0x40),
        KeyKind::Scratch => (0xff, 0x80, 0x80),
        KeyKind::FootPedal => (0x80, 0xff, 0x80),
    }
}

/// The looks of a lane of the kind whose left edge is at `left`.
pub open spec fn style_at(kind: KeyKind, left: int) -> LaneStyle {
    LaneStyle {
        left: left as usize,
        spriteleft: kind_sprite(kind) as usize,
        spritebombleft: kind_bomb_sprite(kind) as usize,
        width: kind_width(kind) as usize,
        basecolor: kind_color(kind),
    }
}

impl LaneStyle {
    /// The looks of a lane of the kind at the place: `pos` is its left
    /// edge, or its right edge where `right` is set.
    pub fn from_kind(kind: KeyKind, pos: usize, right: bool) -> (r: LaneStyle)
        requires
            right ==> pos >= kind_width(kind),
        ensures
            r == style_at(kind, if right { pos - kind_width(kind) } else { pos as int }),
    {
        let (spriteleft, spritebombleft, width, basecolor): (usize, usize, usize, (u8, u8, u8)) = match kind {
            KeyKind::WhiteKey => (25, 0, 25, (0x80, 0x80, 0x80)),
            KeyKind::WhiteKeyAlt => (50, 0, 25, (0xf0, 0xe0, 0x80)),
            KeyKind::BlackKey => (75, 0, 25, (0x80, 0x80, 0xff)),
            KeyKind::Button1 => (130, 100, 30, (0xe0, 0xe0, 0xe0)),
            KeyKind::Button2 => (160, 100, 30, (0xff, 0xff, 0x40)),
            KeyKind::Button3 => (190, 100, 30, (0x80, 0xff, 0x80)),
            KeyKind::Button4 => (220, 100, 30, (0x80, 0x80, 0xff)),
            KeyKind::Button5 => (250, 100, 30, (0xff, 0x40, 0x40)),
            KeyKind::Scratch => (320, 280, 40, (0xff, 0x80, 0x80)),
            KeyKind::FootPedal => (360, 280, 40, (0x80, 0xff, 0x80)),
        };
        let left: usize = if right {
            pos - width
        } else {
            pos
        };
        LaneStyle { left, spriteleft, spritebombleft, width, basecolor }
    }
}

/// The kind of the lane at the place `i` of the order.
pub open spec fn lane_kind(spec: KeySpecModel, i: int) -> KeyKind {
    spec.kinds[spec.order[i].0 as int].unwrap()
}

/// The room that the lanes from the place `a` up to the place `b` of the
/// order take, each with its gap.
pub open spec fn room(spec: KeySpecModel, a: int, b: int) -> int
    decreases b - a,
{
    if b <= a {
        0
    } else {
        room(spec, a, b - 1) + kind_width(lane_kind(spec, b - 1)) + 1
    }
}

/// The room that the left side takes.
pub open spec fn left_room(spec: KeySpecModel) -> int {
    room(spec, 0, spec.split as int)
}

/// Where the room of the right side begins, before the side is moved.
pub open spec fn right_start(spec: KeySpecModel) -> int {
    SCREENW - room(spec, spec.split as int, spec.order.len() as int)
}

/// Whether the screen holds the left side: behind each of its lanes there
/// is room left at the right.
pub open spec fn left_fits(spec: KeySpecModel) -> bool {
    forall|k: int| 0 < k <= spec.split ==> #[trigger] room(spec, 0, k) <= SCREENW - LEFT_MARGIN
}

/// Whether the screen holds the right side: before each of its lanes
/// there is room left between the sides, and the lane does not go beyond
/// the left edge.
pub open spec fn right_fits(spec: KeySpecModel) -> bool {
    forall|k: int|
        spec.split <= k < spec.order.len() ==> SCREENW - #[trigger] room(spec, spec.split as int, k)
            >= left_room(spec) + MIDDLE_MARGIN && room(spec, spec.split as int, k + 1) <= SCREENW
}

/// How far the left side is moved to the right.
pub open spec fn left_shift(spec: KeySpecModel) -> int {
    if left_room(spec) < CUTOFF {
        (CUTOFF - left_room(spec)) / 2
    } else {
        0
    }
}

/// How far the right side is moved to the left.
pub open spec fn right_shift(spec: KeySpecModel) -> int {
    if right_start(spec) > SCREENW - CUTOFF {
        (right_start(spec) - (SCREENW - CUTOFF)) / 2
    } else {
        0
    }
}

/// The left edge of the lane at the place `i` of the order, before its
/// side is moved.
pub open spec fn lane_start(spec: KeySpecModel, i: int) -> int {
    if i < spec.split {
        room(spec, 0, i)
    } else {
        SCREENW - room(spec, spec.split as int, i + 1) + 1
    }
}

/// The left edge of the lane at the place `i` of the order.
pub open spec fn lane_left(spec: KeySpecModel, i: int) -> int {
    if i < spec.split {
        lane_start(spec, i) + left_shift(spec)
    } else {
        lane_start(spec, i) - right_shift(spec)
    }
}

/// The lanes of the order with their looks.
pub open spec fn lane_styles(spec: KeySpecModel) -> Seq<(Lane, LaneStyle)> {
    Seq::new(spec.order.len(), |i: int| (spec.order[i], style_at(lane_kind(spec, i), lane_left(spec, i))))
}

/// Where the left side ends.
pub open spec fn leftmost(spec: KeySpecModel) -> int {
    if left_room(spec) < CUTOFF {
        CUTOFF as int
    } else {
        left_room(spec)
    }
}

/// Where the right side begins, if there is one.
pub open spec fn rightmost(spec: KeySpecModel) -> Option<usize> {
    if spec.split == spec.order.len() {
        None
    } else if right_start(spec) > SCREENW - CUTOFF {
        Some((SCREENW - CUTOFF) as usize)
    } else {
        Some(right_start(spec) as usize)
    }
}

/// A lane takes room.
pub proof fn lemma_room_grows(spec: KeySpecModel, a: int, b: int)
    requires
        a <= b,
    ensures
        room(spec, a, b) >= 26 * (b - a),
    decreases b - a,
{
    if a < b {
        lemma_room_grows(spec, a, b - 1);
    }
}

/// The kind of a lane.
fn kind_of(keyspec: &KeySpec, i: usize) -> (r: KeyKind)
    requires
        keyspec.valid(),
        i < keyspec.order@.len(),
    ensures
        r == lane_kind(keyspec@, i as int),
{
    let lane = keyspec.order[i];
    assert(keyspec@.kinds[keyspec@.order[i as int].0 as int] is Some);
    match keyspec.kinds[lane.0] {
        Some(kind) => kind,
        None => KeyKind::WhiteKey,
    }
}

/// The lanes lined up from both edges of the screen: the room of the left
/// side, where the room of the right side begins, and the lanes with
/// their looks.
fn line_up(keyspec: &KeySpec) -> (r: Result<(usize, usize, Vec<(Lane, LaneStyle)>), TooManyLanes>)
    requires
        keyspec.valid(),
    ensures
        r is Ok <==> left_fits(keyspec@) && right_fits(keyspec@),
        r matches Ok((left, right, styles)) ==> left == left_room(keyspec@) && right == right_start(
            keyspec@,
        ) && styles@.len() == keyspec@.order.len() && forall|k: int|
            0 <= k < styles@.len() ==> #[trigger] styles@[k] == (
                keyspec@.order[k],
                style_at(lane_kind(keyspec@, k), lane_start(keyspec@, k)),
            ),
{
    let ghost spec = keyspec@;
    let split = keyspec.split;
    let n = keyspec.order.len();
    let mut left: usize = 0;
    let mut right: usize = SCREENW;
    let mut styles: Vec<(Lane, LaneStyle)> = Vec::new();
    let mut i: usize = 0;
    while i < split
        invariant
            keyspec.valid(),
            spec == keyspec@,
            split == keyspec.split,
            n == keyspec.order@.len(),
            i <= split <= n,
            left == room(spec, 0, i as int),
            left <= SCREENW - LEFT_MARGIN,
            forall|k: int| 0 < k <= i ==> #[trigger] room(spec, 0, k) <= SCREENW - LEFT_MARGIN,
            styles@.len() == i,
            forall|k: int|
                0 <= k < i ==> #[trigger] styles@[k] == (
                    spec.order[k],
                    style_at(lane_kind(spec, k), lane_start(spec, k)),
                ),
        decreases split - i,
    {
        let style = LaneStyle::from_kind(kind_of(keyspec, i), left, false);
        styles.push((keyspec.order[i], style));
        left += style.width + 1;
        i += 1;
        if left > SCREENW - LEFT_MARGIN {
            assert(!(room(spec, 0, i as int) <= SCREENW - LEFT_MARGIN));
            return Err(TooManyLanes);
        }
    }
    assert(left_fits(spec));
    while i < n
        invariant
            keyspec.valid(),
            spec == keyspec@,
            split == keyspec.split,
            n == keyspec.order@.len(),
            split <= i <= n,
            left == left_room(spec),
            left <= SCREENW - LEFT_MARGIN,
            right == SCREENW - room(spec, split as int, i as int),
            right <= SCREENW,
            forall|k: int|
                split <= k < i ==> SCREENW - #[trigger] room(spec, split as int, k) >= left_room(spec)
                    + MIDDLE_MARGIN && room(spec, split as int, k + 1) <= SCREENW,
            styles@.len() == i,
            forall|k: int|
                0 <= k < i ==> #[trigger] styles@[k] == (
                    spec.order[k],
                    style_at(lane_kind(spec, k), lane_start(spec, k)),
                ),
        decreases n - i,
    {
        let kind = kind_of(keyspec, i);
        if right < left + MIDDLE_MARGIN {
            assert(!(SCREENW - room(spec, split as int, i as int) >= left_room(spec) + MIDDLE_MARGIN));
            return Err(TooManyLanes);
        }
        let style = LaneStyle::from_kind(kind, right, true);
        if right < style.width + 1 {
            assert(!(room(spec, split as int, i + 1) <= SCREENW));
            return Err(TooManyLanes);
        }
        styles.push((keyspec.order[i], style));
        right -= style.width + 1;
        i += 1;
    }
    assert(right_fits(spec));
    Ok((left, right, styles))
}

/// The lane with its left edge at `left`.
pub open spec fn placed_at(entry: (Lane, LaneStyle), left: int) -> (Lane, LaneStyle) {
    (entry.0, LaneStyle { left: left as usize, ..entry.1 })
}

/// Moves the lanes from the place `from` up to the place `to` by `by`
/// pixels: to the left where `back` is set, else to the right.
fn move_lanes(styles: &mut Vec<(Lane, LaneStyle)>, from: usize, to: usize, by: usize, back: bool)
    requires
        from <= to <= old(styles)@.len(),
        forall|j: int|
            from <= j < to ==> if back {
                (#[trigger] old(styles)@[j]).1.left >= by
            } else {
                old(styles)@[j].1.left + by <= usize::MAX
            },
    ensures
        final(styles)@.len() == old(styles)@.len(),
        forall|j: int|
            0 <= j < old(styles)@.len() ==> #[trigger] final(styles)@[j] == if from <= j < to {
                placed_at(
                    old(styles)@[j],
                    if back {
                        old(styles)@[j].1.left - by
                    } else {
                        old(styles)@[j].1.left + by
                    },
                )
            } else {
                old(styles)@[j]
            },
{
    let mut k: usize = from;
    while k < to
        invariant
            from <= k <= to <= styles@.len(),
            styles@.len() == old(styles)@.len(),
            forall|j: int| k <= j < styles@.len() ==> #[trigger] styles@[j] == old(styles)@[j],
            forall|j: int| 0 <= j < from ==> #[trigger] styles@[j] == old(styles)@[j],
            forall|j: int|
                from <= j < k ==> #[trigger] styles@[j] == placed_at(
                    old(styles)@[j],
                    if back {
                        old(styles)@[j].1.left - by
                    } else {
                        old(styles)@[j].1.left + by
                    },
                ),
            forall|j: int|
                from <= j < to ==> if back {
                    (#[trigger] old(styles)@[j]).1.left >= by
                } else {
                    old(styles)@[j].1.left + by <= usize::MAX
                },
        decreases to - k,
    {
        let (lane, style) = styles[k];
        assert(styles@[k as int] == old(styles)@[k as int]);
        let left: usize = if back {
            style.left - by
        } else {
            style.left + by
        };
        styles.set(k, (lane, LaneStyle { left, ..style }));
        k += 1;
    }
}

/// Places the lanes of the key specification on the screen: where the
/// left side ends, where the right side begins if there is one, and the
/// lanes with their looks.
pub fn build_lane_styles(keyspec: &KeySpec) -> (r: Result<(usize, Option<usize>, Vec<(Lane, LaneStyle)>), TooManyLanes>)
    requires
        keyspec.valid(),
    ensures
        r is Ok <==> left_fits(keyspec@) && right_fits(keyspec@),
        r matches Ok((left, right, styles)) ==> left == leftmost(keyspec@) && right == rightmost(keyspec@)
            && styles@ == lane_styles(keyspec@),
{
    let ghost spec = keyspec@;
    let split = keyspec.split;
    let n = keyspec.order.len();
    let (left, right, mut styles) = match line_up(keyspec) {
        Ok(lined) => lined,
        Err(e) => {
            return Err(e);
        },
    };
    let ghost lined = styles@;
    proof {
        lemma_room_grows(spec, split as int, n as int);
        lemma_room_grows(spec, 0, split as int);
        assert forall|j: int| 0 <= j < n implies 0 <= lane_start(spec, j) <= SCREENW && (j >= split
            ==> lane_start(spec, j) > right_start(spec)) by {
            if j < split {
                lemma_room_grows(spec, 0, j);
                lemma_room_split(spec, 0, j, split as int);
                lemma_room_grows(spec, j, split as int);
            } else {
                lemma_room_grows(spec, split as int, j + 1);
                lemma_room_split(spec, split as int, j + 1, n as int);
                lemma_room_grows(spec, j + 1, n as int);
            }
        }
    }
    let mut leftmost = left;
    if left < CUTOFF {
        move_lanes(&mut styles, 0, split, (CUTOFF - left) / 2, false);
        leftmost = CUTOFF;
    }
    let ghost halfway = styles@;
    let mut rightmost: Option<usize> = if split == n {
        None
    } else {
        Some(right)
    };
    if split < n && right > SCREENW - CUTOFF {
        move_lanes(&mut styles, split, n, (right - (SCREENW - CUTOFF)) / 2, true);
        rightmost = Some(SCREENW - CUTOFF);
    }
    assert forall|j: int| 0 <= j < n implies #[trigger] styles@[j] == lane_styles(spec)[j] by {
        assert(0 <= lane_start(spec, j) <= SCREENW);
        assert(lined[j] == (spec.order[j], style_at(lane_kind(spec, j), lane_start(spec, j))));
        if j < split {
            assert(styles@[j] == halfway[j]);
        } else {
            assert(halfway[j] == lined[j]);
            assert(lane_start(spec, j) > right_start(spec));
        }
    }
    assert(styles@ =~= lane_styles(spec));
    Ok((leftmost, rightmost, styles))
}

/// The room of a run of lanes is that of its two parts.
pub proof fn lemma_room_split(spec: KeySpecModel, a: int, b: int, c: int)
    requires
        a <= b <= c,
    ensures
        room(spec, a, c) == room(spec, a, b) + room(spec, b, c),
    decreases c - b,
{
    if b < c {
        lemma_room_split(spec, a, b, c - 1);
    }
}

} // verus!
