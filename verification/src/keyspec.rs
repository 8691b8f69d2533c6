//! Key specifications: which lanes are played, in what order, and how
//! each of them looks.
//!
//! A key specification is written as a row of lanes, each a two-letter
//! channel from `11` to `2Z` followed by the letter of its kind, with blanks
//! between them if one likes. Well-known layouts have names.

use vstd::prelude::*;
use vstd::slice::slice_subrange;
use crate::bms::{Bms, COUPLE_PLAY, DOUBLE_PLAY};
use crate::key::{key_at, Key};
use crate::lane::{kind_of_char, KeyKind, Lane, NLANES};
use crate::obj::Obj;
use crate::scan::{skip_spaces, trim_left, FromStrPrefix};

verus! {

/// The lanes that are played, and how they look.
#[derive(Clone, Debug, PartialEq, Eq)]
pub struct KeySpec {
    /// The number of lanes on the left side. It matters only where the two
    /// sides are drawn apart.
    pub split: usize,
    /// The lanes, from left to right.
    pub order: Vec<Lane>,
    /// The kind of each lane, and `None` for a lane that is not played.
    pub kinds: Vec<Option<KeyKind>>,
}

/// The number of the first `n` kinds that count as keys.
pub open spec fn count_keys(kinds: Seq<Option<KeyKind>>, n: int) -> nat
    decreases n,
{
    if n <= 0 {
        0
    } else {
        count_keys(kinds, n - 1) + if kinds[n - 1] matches Some(kind) && kind != KeyKind::Scratch
            && kind != KeyKind::FootPedal {
            1nat
        } else {
            0nat
        }
    }
}

impl KeySpec {
    /// Whether every lane of the order has a place among the kinds, and the
    /// left side ends within the order.
    pub open spec fn wf(&self) -> bool {
        &&& self.split <= self.order@.len()
        &&& self.kinds@.len() == NLANES
        &&& forall|i: int| 0 <= i < self.order@.len() ==> (#[trigger] self.order@[i]).0 < NLANES
    }

    /// Whether the key specification is well formed and every lane of the
    /// order has a kind.
    pub open spec fn valid(&self) -> bool {
        self.wf() && kinds_known(self@)
    }

    /// The number of lanes that count as keys. Scratches and foot pedals do
    /// not.
    pub fn nkeys(&self) -> (r: usize)
        ensures
            r == count_keys(self.kinds@, self.kinds@.len() as int),
    {
        let mut nkeys: usize = 0;
        let mut i: usize = 0;
        while i < self.kinds.len()
            invariant
                i <= self.kinds@.len(),
                nkeys == count_keys(self.kinds@, i as int),
                nkeys <= i,
            decreases self.kinds@.len() - i,
        {
            match self.kinds[i] {
                Some(kind) => {
                    if kind.counts_as_key() {
                        nkeys += 1;
                    }
                },
                None => {},
            }
            i += 1;
        }
        nkeys
    }

    /// The lanes on the left side, from left to right.
    pub fn left_lanes(&self) -> (r: &[Lane])
        requires
            self.split <= self.order@.len(),
        ensures
            r@ == self.order@.subrange(0, self.split as int),
    {
        slice_subrange(self.order.as_slice(), 0, self.split)
    }

    /// The lanes on the right side, from left to right.
    pub fn right_lanes(&self) -> (r: &[Lane])
        requires
            self.split <= self.order@.len(),
        ensures
            r@ == self.order@.subrange(self.split as int, self.order@.len() as int),
    {
        slice_subrange(self.order.as_slice(), self.split, self.order.len())
    }
}

/// The lanes that the text from `pos` on names, with their kinds: for each
/// a channel from `11` to `2Z` and the letter of a kind, then blanks if
/// there are any. Anything else spoils the whole.
pub open spec fn key_spec_at(s: Seq<u8>, pos: int) -> Option<Seq<(Lane, KeyKind)>>
    decreases s.len() - pos,
{
    if pos >= s.len() || pos < 0 {
        Some(Seq::empty())
    } else {
        match key_at(s, pos) {
            Some((chan, p)) => if p < s.len() && 36 <= chan.0 <= 107 {
                match kind_of_char(s[p]) {
                    Some(kind) => {
                        proof {
                            crate::scan::lemma_skip_spaces_bounds(s, p + 1);
                        }
                        match key_spec_at(s, skip_spaces(s, p + 1)) {
                            Some(rest) => Some(
                                seq![(Lane((chan.0 - 36) as usize), kind)] + rest,
                            ),
                            None => None,
                        }
                    },
                    None => None,
                }
            } else {
                None
            },
            None => None,
        }
    }
}

/// The lanes that a key specification names, with their kinds.
pub open spec fn key_spec_of(s: Seq<u8>) -> Option<Seq<(Lane, KeyKind)>> {
    key_spec_at(s, skip_spaces(s, 0))
}

/// Reads a key specification.
pub fn parse_key_spec(s: &[u8]) -> (r: Option<Vec<(Lane, KeyKind)>>)
    ensures
        r is Some <==> key_spec_of(s@) is Some,
        r matches Some(specs) ==> key_spec_of(s@) == Some(specs@) && forall|i: int|
            0 <= i < specs@.len() ==> (#[trigger] specs@[i]).0.0 < NLANES,
{
    let mut specs: Vec<(Lane, KeyKind)> = Vec::new();
    let mut pos = trim_left(s, 0);
    while pos < s.len()
        invariant
            pos <= s@.len(),
            forall|i: int| 0 <= i < specs@.len() ==> (#[trigger] specs@[i]).0.0 < NLANES,
            key_spec_of(s@) == match key_spec_at(s@, pos as int) {
                Some(rest) => Some(specs@ + rest),
                None => None,
            },
        decreases s@.len() - pos,
    {
        let (chan, p) = match Key::from_str_prefix(s, pos) {
            Some(x) => x,
            None => {
                return None;
            },
        };
        if !(p < s.len() && 36 <= chan.0 && chan.0 <= 107) {
            return None;
        }
        let kind = match KeyKind::from_char(s[p]) {
            Some(kind) => kind,
            None => {
                return None;
            },
        };
        let next = trim_left(s, p + 1);
        proof {
            let item = (Lane((chan.0 - 36) as usize), kind);
            match key_spec_at(s@, next as int) {
                Some(rest) => {
                    assert(specs@ + (seq![item] + rest) =~= specs@.push(item) + rest);
                },
                None => {},
            }
        }
        specs.push((Lane((chan.0 - 36) as usize), kind));
        pos = next;
    }
    proof {
        assert(specs@ + Seq::<(Lane, KeyKind)>::empty() =~= specs@);
    }
    Some(specs)
}

/// The layouts that have a name.
#[derive(Clone, Copy, Debug, PartialEq, Eq, Structural)]
pub enum Preset {
    /// `5`: `16s 11a 12b 13a 14b 15a`.
    Five,
    /// `10`: `16s 11a 12b 13a 14b 15a` and `21a 22b 23a 24b 25a 26s`.
    Ten,
    /// `5/fp`: `16s 11a 12b 13a 14b 15a 17p`.
    FivePedal,
    /// `10/fp`: `16s 11a 12b 13a 14b 15a 17p` and `27p 21a 22b 23a 24b 25a 26s`.
    TenPedal,
    /// `7`: `16s 11a 12b 13a 14b 15a 18b 19a`.
    Seven,
    /// `14`: `16s 11a 12b 13a 14b 15a 18b 19a` and `21a 22b 23a 24b 25a 28b 29a 26s`.
    Fourteen,
    /// `7/fp`: `16s 11a 12b 13a 14b 15a 18b 19a 17p`.
    SevenPedal,
    /// `14/fp`: `16s 11a 12b 13a 14b 15a 18b 19a 17p` and `27p 21a 22b 23a 24b 25a 28b 29a 26s`.
    FourteenPedal,
    /// `9`: `11q 12w 13e 14r 15t 22r 23e 24w 25q`.
    Nine,
    /// `9-bme`: `11q 12w 13e 14r 15t 18r 19e 16w 17q`.
    NineBme,
}

impl Preset {
    /// The name of the layout.
    pub open spec fn name(self) -> Seq<u8> {
        match self {
            Preset::Five => seq!['5' as u8],
            Preset::Ten => seq!['1' as u8, '0' as u8],
            Preset::FivePedal => seq!['5' as u8, '/' as u8, 'f' as u8, 'p' as u8],
            Preset::TenPedal => seq!['1' as u8, '0' as u8, '/' as u8, 'f' as u8, 'p' as u8],
            Preset::Seven => seq!['7' as u8],
            Preset::Fourteen => seq!['1' as u8, '4' as u8],
            Preset::SevenPedal => seq!['7' as u8, '/' as u8, 'f' as u8, 'p' as u8],
            Preset::FourteenPedal => seq!['1' as u8, '4' as u8, '/' as u8, 'f' as u8, 'p' as u8],
            Preset::Nine => seq!['9' as u8],
            Preset::NineBme => seq!['9' as u8, '-' as u8, 'b' as u8, 'm' as u8, 'e' as u8],
        }
    }

    /// The key specification of the left side.
    pub open spec fn left(self) -> Seq<u8> {
        match self {
            Preset::Five => seq!['1' as u8, '6' as u8, 's' as u8, ' ' as u8, '1' as u8, '1' as u8, 'a' as u8, ' ' as u8, '1' as u8, '2' as u8, 'b' as u8, ' ' as u8, '1' as u8, '3' as u8, 'a' as u8, ' ' as u8, '1' as u8, '4' as u8, 'b' as u8, ' ' as u8, '1' as u8, '5' as u8, 'a' as u8],
            Preset::Ten => seq!['1' as u8, '6' as u8, 's' as u8, ' ' as u8, '1' as u8, '1' as u8, 'a' as u8, ' ' as u8, '1' as u8, '2' as u8, 'b' as u8, ' ' as u8, '1' as u8, '3' as u8, 'a' as u8, ' ' as u8, '1' as u8, '4' as u8, 'b' as u8, ' ' as u8, '1' as u8, '5' as u8, 'a' as u8],
            Preset::FivePedal => seq!['1' as u8, '6' as u8, 's' as u8, ' ' as u8, '1' as u8, '1' as u8, 'a' as u8, ' ' as u8, '1' as u8, '2' as u8, 'b' as u8, ' ' as u8, '1' as u8, '3' as u8, 'a' as u8, ' ' as u8, '1' as u8, '4' as u8, 'b' as u8, ' ' as u8, '1' as u8, '5' as u8, 'a' as u8, ' ' as u8, '1' as u8, '7' as u8, 'p' as u8],
            Preset::TenPedal => seq!['1' as u8, '6' as u8, 's' as u8, ' ' as u8, '1' as u8, '1' as u8, 'a' as u8, ' ' as u8, '1' as u8, '2' as u8, 'b' as u8, ' ' as u8, '1' as u8, '3' as u8, 'a' as u8, ' ' as u8, '1' as u8, '4' as u8, 'b' as u8, ' ' as u8, '1' as u8, '5' as u8, 'a' as u8, ' ' as u8, '1' as u8, '7' as u8, 'p' as u8],
            Preset::Seven => seq!['1' as u8, '6' as u8, 's' as u8, ' ' as u8, '1' as u8, '1' as u8, 'a' as u8, ' ' as u8, '1' as u8, '2' as u8, 'b' as u8, ' ' as u8, '1' as u8, '3' as u8, 'a' as u8, ' ' as u8, '1' as u8, '4' as u8, 'b' as u8, ' ' as u8, '1' as u8, '5' as u8, 'a' as u8, ' ' as u8, '1' as u8, '8' as u8, 'b' as u8, ' ' as u8, '1' as u8, '9' as u8, 'a' as u8],
            Preset::Fourteen => seq!['1' as u8, '6' as u8, 's' as u8, ' ' as u8, '1' as u8, '1' as u8, 'a' as u8, ' ' as u8, '1' as u8, '2' as u8, 'b' as u8, ' ' as u8, '1' as u8, '3' as u8, 'a' as u8, ' ' as u8, '1' as u8, '4' as u8, 'b' as u8, ' ' as u8, '1' as u8, '5' as u8, 'a' as u8, ' ' as u8, '1' as u8, '8' as u8, 'b' as u8, ' ' as u8, '1' as u8, '9' as u8, 'a' as u8],
            Preset::SevenPedal => seq!['1' as u8, '6' as u8, 's' as u8, ' ' as u8, '1' as u8, '1' as u8, 'a' as u8, ' ' as u8, '1' as u8, '2' as u8, 'b' as u8, ' ' as u8, '1' as u8, '3' as u8, 'a' as u8, ' ' as u8, '1' as u8, '4' as u8, 'b' as u8, ' ' as u8, '1' as u8, '5' as u8, 'a' as u8, ' ' as u8, '1' as u8, '8' as u8, 'b' as u8, ' ' as u8, '1' as u8, '9' as u8, 'a' as u8, ' ' as u8, '1' as u8, '7' as u8, 'p' as u8],
            Preset::FourteenPedal => seq!['1' as u8, '6' as u8, 's' as u8, ' ' as u8, '1' as u8, '1' as u8, 'a' as u8, ' ' as u8, '1' as u8, '2' as u8, 'b' as u8, ' ' as u8, '1' as u8, '3' as u8, 'a' as u8, ' ' as u8, '1' as u8, '4' as u8, 'b' as u8, ' ' as u8, '1' as u8, '5' as u8, 'a' as u8, ' ' as u8, '1' as u8, '8' as u8, 'b' as u8, ' ' as u8, '1' as u8, '9' as u8, 'a' as u8, ' ' as u8, '1' as u8, '7' as u8, 'p' as u8],
            Preset::Nine => seq!['1' as u8, '1' as u8, 'q' as u8, ' ' as u8, '1' as u8, '2' as u8, 'w' as u8, ' ' as u8, '1' as u8, '3' as u8, 'e' as u8, ' ' as u8, '1' as u8, '4' as u8, 'r' as u8, ' ' as u8, '1' as u8, '5' as u8, 't' as u8, ' ' as u8, '2' as u8, '2' as u8, 'r' as u8, ' ' as u8, '2' as u8, '3' as u8, 'e' as u8, ' ' as u8, '2' as u8, '4' as u8, 'w' as u8, ' ' as u8, '2' as u8, '5' as u8, 'q' as u8],
            Preset::NineBme => seq!['1' as u8, '1' as u8, 'q' as u8, ' ' as u8, '1' as u8, '2' as u8, 'w' as u8, ' ' as u8, '1' as u8, '3' as u8, 'e' as u8, ' ' as u8, '1' as u8, '4' as u8, 'r' as u8, ' ' as u8, '1' as u8, '5' as u8, 't' as u8, ' ' as u8, '1' as u8, '8' as u8, 'r' as u8, ' ' as u8, '1' as u8, '9' as u8, 'e' as u8, ' ' as u8, '1' as u8, '6' as u8, 'w' as u8, ' ' as u8, '1' as u8, '7' as u8, 'q' as u8],
        }
    }

    /// The key specification of the right side, which may be empty.
    pub open spec fn right(self) -> Seq<u8> {
        match self {
            Preset::Five => Seq::<u8>::empty(),
            Preset::Ten => seq!['2' as u8, '1' as u8, 'a' as u8, ' ' as u8, '2' as u8, '2' as u8, 'b' as u8, ' ' as u8, '2' as u8, '3' as u8, 'a' as u8, ' ' as u8, '2' as u8, '4' as u8, 'b' as u8, ' ' as u8, '2' as u8, '5' as u8, 'a' as u8, ' ' as u8, '2' as u8, '6' as u8, 's' as u8],
            Preset::FivePedal => Seq::<u8>::empty(),
            Preset::TenPedal => seq!['2' as u8, '7' as u8, 'p' as u8, ' ' as u8, '2' as u8, '1' as u8, 'a' as u8, ' ' as u8, '2' as u8, '2' as u8, 'b' as u8, ' ' as u8, '2' as u8, '3' as u8, 'a' as u8, ' ' as u8, '2' as u8, '4' as u8, 'b' as u8, ' ' as u8, '2' as u8, '5' as u8, 'a' as u8, ' ' as u8, '2' as u8, '6' as u8, 's' as u8],
            Preset::Seven => Seq::<u8>::empty(),
            Preset::Fourteen => seq!['2' as u8, '1' as u8, 'a' as u8, ' ' as u8, '2' as u8, '2' as u8, 'b' as u8, ' ' as u8, '2' as u8, '3' as u8, 'a' as u8, ' ' as u8, '2' as u8, '4' as u8, 'b' as u8, ' ' as u8, '2' as u8, '5' as u8, 'a' as u8, ' ' as u8, '2' as u8, '8' as u8, 'b' as u8, ' ' as u8, '2' as u8, '9' as u8, 'a' as u8, ' ' as u8, '2' as u8, '6' as u8, 's' as u8],
            Preset::SevenPedal => Seq::<u8>::empty(),
            Preset::FourteenPedal => seq!['2' as u8, '7' as u8, 'p' as u8, ' ' as u8, '2' as u8, '1' as u8, 'a' as u8, ' ' as u8, '2' as u8, '2' as u8, 'b' as u8, ' ' as u8, '2' as u8, '3' as u8, 'a' as u8, ' ' as u8, '2' as u8, '4' as u8, 'b' as u8, ' ' as u8, '2' as u8, '5' as u8, 'a' as u8, ' ' as u8, '2' as u8, '8' as u8, 'b' as u8, ' ' as u8, '2' as u8, '9' as u8, 'a' as u8, ' ' as u8, '2' as u8, '6' as u8, 's' as u8],
            Preset::Nine => Seq::<u8>::empty(),
            Preset::NineBme => Seq::<u8>::empty(),
        }
    }

    /// The name of the layout.
    pub fn name_text(self) -> (r: Vec<u8>)
        ensures
            r@ == self.name(),
    {
        let r = match self {
            Preset::Five => vec!['5' as u8],
            Preset::Ten => vec!['1' as u8, '0' as u8],
            Preset::FivePedal => vec!['5' as u8, '/' as u8, 'f' as u8, 'p' as u8],
            Preset::TenPedal => vec!['1' as u8, '0' as u8, '/' as u8, 'f' as u8, 'p' as u8],
            Preset::Seven => vec!['7' as u8],
            Preset::Fourteen => vec!['1' as u8, '4' as u8],
            Preset::SevenPedal => vec!['7' as u8, '/' as u8, 'f' as u8, 'p' as u8],
            Preset::FourteenPedal => vec!['1' as u8, '4' as u8, '/' as u8, 'f' as u8, 'p' as u8],
            Preset::Nine => vec!['9' as u8],
            Preset::NineBme => vec!['9' as u8, '-' as u8, 'b' as u8, 'm' as u8, 'e' as u8],
        };
        assert(r@ =~= self.name());
        r
    }

    /// The key specification of the left side.
    pub fn left_text(self) -> (r: Vec<u8>)
        ensures
            r@ == self.left(),
    {
        let r = match self {
            Preset::Five => vec!['1' as u8, '6' as u8, 's' as u8, ' ' as u8, '1' as u8, '1' as u8, 'a' as u8, ' ' as u8, '1' as u8, '2' as u8, 'b' as u8, ' ' as u8, '1' as u8, '3' as u8, 'a' as u8, ' ' as u8, '1' as u8, '4' as u8, 'b' as u8, ' ' as u8, '1' as u8, '5' as u8, 'a' as u8],
            Preset::Ten => vec!['1' as u8, '6' as u8, 's' as u8, ' ' as u8, '1' as u8, '1' as u8, 'a' as u8, ' ' as u8, '1' as u8, '2' as u8, 'b' as u8, ' ' as u8, '1' as u8, '3' as u8, 'a' as u8, ' ' as u8, '1' as u8, '4' as u8, 'b' as u8, ' ' as u8, '1' as u8, '5' as u8, 'a' as u8],
            Preset::FivePedal => vec!['1' as u8, '6' as u8, 's' as u8, ' ' as u8, '1' as u8, '1' as u8, 'a' as u8, ' ' as u8, '1' as u8, '2' as u8, 'b' as u8, ' ' as u8, '1' as u8, '3' as u8, 'a' as u8, ' ' as u8, '1' as u8, '4' as u8, 'b' as u8, ' ' as u8, '1' as u8, '5' as u8, 'a' as u8, ' ' as u8, '1' as u8, '7' as u8, 'p' as u8],
            Preset::TenPedal => vec!['1' as u8, '6' as u8, 's' as u8, ' ' as u8, '1' as u8, '1' as u8, 'a' as u8, ' ' as u8, '1' as u8, '2' as u8, 'b' as u8, ' ' as u8, '1' as u8, '3' as u8, 'a' as u8, ' ' as u8, '1' as u8, '4' as u8, 'b' as u8, ' ' as u8, '1' as u8, '5' as u8, 'a' as u8, ' ' as u8, '1' as u8, '7' as u8, 'p' as u8],
            Preset::Seven => vec!['1' as u8, '6' as u8, 's' as u8, ' ' as u8, '1' as u8, '1' as u8, 'a' as u8, ' ' as u8, '1' as u8, '2' as u8, 'b' as u8, ' ' as u8, '1' as u8, '3' as u8, 'a' as u8, ' ' as u8, '1' as u8, '4' as u8, 'b' as u8, ' ' as u8, '1' as u8, '5' as u8, 'a' as u8, ' ' as u8, '1' as u8, '8' as u8, 'b' as u8, ' ' as u8, '1' as u8, '9' as u8, 'a' as u8],
            Preset::Fourteen => vec!['1' as u8, '6' as u8, 's' as u8, ' ' as u8, '1' as u8, '1' as u8, 'a' as u8, ' ' as u8, '1' as u8, '2' as u8, 'b' as u8, ' ' as u8, '1' as u8, '3' as u8, 'a' as u8, ' ' as u8, '1' as u8, '4' as u8, 'b' as u8, ' ' as u8, '1' as u8, '5' as u8, 'a' as u8, ' ' as u8, '1' as u8, '8' as u8, 'b' as u8, ' ' as u8, '1' as u8, '9' as u8, 'a' as u8],
            Preset::SevenPedal => vec!['1' as u8, '6' as u8, 's' as u8, ' ' as u8, '1' as u8, '1' as u8, 'a' as u8, ' ' as u8, '1' as u8, '2' as u8, 'b' as u8, ' ' as u8, '1' as u8, '3' as u8, 'a' as u8, ' ' as u8, '1' as u8, '4' as u8, 'b' as u8, ' ' as u8, '1' as u8, '5' as u8, 'a' as u8, ' ' as u8, '1' as u8, '8' as u8, 'b' as u8, ' ' as u8, '1' as u8, '9' as u8, 'a' as u8, ' ' as u8, '1' as u8, '7' as u8, 'p' as u8],
            Preset::FourteenPedal => vec!['1' as u8, '6' as u8, 's' as u8, ' ' as u8, '1' as u8, '1' as u8, 'a' as u8, ' ' as u8, '1' as u8, '2' as u8, 'b' as u8, ' ' as u8, '1' as u8, '3' as u8, 'a' as u8, ' ' as u8, '1' as u8, '4' as u8, 'b' as u8, ' ' as u8, '1' as u8, '5' as u8, 'a' as u8, ' ' as u8, '1' as u8, '8' as u8, 'b' as u8, ' ' as u8, '1' as u8, '9' as u8, 'a' as u8, ' ' as u8, '1' as u8, '7' as u8, 'p' as u8],
            Preset::Nine => vec!['1' as u8, '1' as u8, 'q' as u8, ' ' as u8, '1' as u8, '2' as u8, 'w' as u8, ' ' as u8, '1' as u8, '3' as u8, 'e' as u8, ' ' as u8, '1' as u8, '4' as u8, 'r' as u8, ' ' as u8, '1' as u8, '5' as u8, 't' as u8, ' ' as u8, '2' as u8, '2' as u8, 'r' as u8, ' ' as u8, '2' as u8, '3' as u8, 'e' as u8, ' ' as u8, '2' as u8, '4' as u8, 'w' as u8, ' ' as u8, '2' as u8, '5' as u8, 'q' as u8],
            Preset::NineBme => vec!['1' as u8, '1' as u8, 'q' as u8, ' ' as u8, '1' as u8, '2' as u8, 'w' as u8, ' ' as u8, '1' as u8, '3' as u8, 'e' as u8, ' ' as u8, '1' as u8, '4' as u8, 'r' as u8, ' ' as u8, '1' as u8, '5' as u8, 't' as u8, ' ' as u8, '1' as u8, '8' as u8, 'r' as u8, ' ' as u8, '1' as u8, '9' as u8, 'e' as u8, ' ' as u8, '1' as u8, '6' as u8, 'w' as u8, ' ' as u8, '1' as u8, '7' as u8, 'q' as u8],
        };
        assert(r@ =~= self.left());
        r
    }

    /// The key specification of the right side, which may be empty.
    pub fn right_text(self) -> (r: Vec<u8>)
        ensures
            r@ == self.right(),
    {
        let r: Vec<u8> = match self {
            Preset::Five => Vec::new(),
            Preset::Ten => vec!['2' as u8, '1' as u8, 'a' as u8, ' ' as u8, '2' as u8, '2' as u8, 'b' as u8, ' ' as u8, '2' as u8, '3' as u8, 'a' as u8, ' ' as u8, '2' as u8, '4' as u8, 'b' as u8, ' ' as u8, '2' as u8, '5' as u8, 'a' as u8, ' ' as u8, '2' as u8, '6' as u8, 's' as u8],
            Preset::FivePedal => Vec::new(),
            Preset::TenPedal => vec!['2' as u8, '7' as u8, 'p' as u8, ' ' as u8, '2' as u8, '1' as u8, 'a' as u8, ' ' as u8, '2' as u8, '2' as u8, 'b' as u8, ' ' as u8, '2' as u8, '3' as u8, 'a' as u8, ' ' as u8, '2' as u8, '4' as u8, 'b' as u8, ' ' as u8, '2' as u8, '5' as u8, 'a' as u8, ' ' as u8, '2' as u8, '6' as u8, 's' as u8],
            Preset::Seven => Vec::new(),
            Preset::Fourteen => vec!['2' as u8, '1' as u8, 'a' as u8, ' ' as u8, '2' as u8, '2' as u8, 'b' as u8, ' ' as u8, '2' as u8, '3' as u8, 'a' as u8, ' ' as u8, '2' as u8, '4' as u8, 'b' as u8, ' ' as u8, '2' as u8, '5' as u8, 'a' as u8, ' ' as u8, '2' as u8, '8' as u8, 'b' as u8, ' ' as u8, '2' as u8, '9' as u8, 'a' as u8, ' ' as u8, '2' as u8, '6' as u8, 's' as u8],
            Preset::SevenPedal => Vec::new(),
            Preset::FourteenPedal => vec!['2' as u8, '7' as u8, 'p' as u8, ' ' as u8, '2' as u8, '1' as u8, 'a' as u8, ' ' as u8, '2' as u8, '2' as u8, 'b' as u8, ' ' as u8, '2' as u8, '3' as u8, 'a' as u8, ' ' as u8, '2' as u8, '4' as u8, 'b' as u8, ' ' as u8, '2' as u8, '5' as u8, 'a' as u8, ' ' as u8, '2' as u8, '8' as u8, 'b' as u8, ' ' as u8, '2' as u8, '9' as u8, 'a' as u8, ' ' as u8, '2' as u8, '6' as u8, 's' as u8],
            Preset::Nine => Vec::new(),
            Preset::NineBme => Vec::new(),
        };
        assert(r@ =~= self.right());
        r
    }
}

/// The lower-case form of a letter, and any other character as it is.
pub open spec fn lower(c: u8) -> u8 {
    if 'A' as u8 <= c <= 'Z' as u8 {
        (c + 32) as u8
    } else {
        c
    }
}

/// The text in lower case.
pub open spec fn lowered(s: Seq<u8>) -> Seq<u8> {
    Seq::new(s.len(), |i: int| lower(s[i]))
}

/// Whether the text is `word`, in either case. `word` is in lower case.
fn is_word(s: &[u8], word: &[u8]) -> (r: bool)
    ensures
        r == (lowered(s@) == word@),
{
    if s.len() != word.len() {
        return false;
    }
    let mut i: usize = 0;
    while i < s.len()
        invariant
            i <= s@.len() == word@.len(),
            forall|j: int| 0 <= j < i ==> lower(s@[j]) == word@[j],
        decreases s@.len() - i,
    {
        let c = s[i];
        let l = if 'A' as u8 <= c && c <= 'Z' as u8 {
            c + 32
        } else {
            c
        };
        if l != word[i] {
            assert(lowered(s@)[i as int] != word@[i as int]);
            return false;
        }
        i += 1;
    }
    assert(lowered(s@) =~= word@);
    true
}

/// Whether a note or bomb lies in the lane `lane`.
pub open spec fn lane_present(objs: Seq<Obj>, lane: int) -> bool {
    exists|i: int| 0 <= i < objs.len() && (#[trigger] objs[i]).data.lane() == Some(Lane(lane as usize))
}

/// The layout that a chart asks for, where `preset` is the name that was
/// asked for, if one was.
///
/// No name, `bms`, `bme` or `bml` stand for the layout with five or seven
/// keys on each side that the chart uses: seven if it has notes on the
/// eighth or ninth channel of a side, two sides if it is for couple or
/// double play, and a foot pedal if it has notes on the seventh channel.
/// `pms` stands for nine buttons, in the lanes of the first side alone if
/// the chart has notes on its sixth to ninth channel. Any other name stands
/// for the layout of that name.
pub open spec fn preset_of(objs: Seq<Obj>, player: i64, preset: Option<Seq<u8>>) -> Option<Preset> {
    let name = match preset {
        Some(name) => Some(lowered(name)),
        None => None,
    };
    if name is None || name == Some(seq!['b' as u8, 'm' as u8, 's' as u8]) || name == Some(
        seq!['b' as u8, 'm' as u8, 'e' as u8],
    ) || name == Some(seq!['b' as u8, 'm' as u8, 'l' as u8]) {
        let isbme = lane_present(objs, 8) || lane_present(objs, 9) || lane_present(objs, 44)
            || lane_present(objs, 45);
        let haspedal = lane_present(objs, 7) || lane_present(objs, 43);
        let both = player == COUPLE_PLAY || player == DOUBLE_PLAY;
        Some(
            if both {
                if isbme {
                    if haspedal {
                        Preset::FourteenPedal
                    } else {
                        Preset::Fourteen
                    }
                } else {
                    if haspedal {
                        Preset::TenPedal
                    } else {
                        Preset::Ten
                    }
                }
            } else {
                if isbme {
                    if haspedal {
                        Preset::SevenPedal
                    } else {
                        Preset::Seven
                    }
                } else {
                    if haspedal {
                        Preset::FivePedal
                    } else {
                        Preset::Five
                    }
                }
            },
        )
    } else if name == Some(seq!['p' as u8, 'm' as u8, 's' as u8]) {
        let isbme = lane_present(objs, 6) || lane_present(objs, 7) || lane_present(objs, 8)
            || lane_present(objs, 9);
        Some(
            if isbme {
                Preset::NineBme
            } else {
                Preset::Nine
            },
        )
    } else {
        if name == Some(Preset::Five.name()) {
            Some(Preset::Five)
        }         else if name == Some(Preset::Ten.name()) {
            Some(Preset::Ten)
        }         else if name == Some(Preset::FivePedal.name()) {
            Some(Preset::FivePedal)
        }         else if name == Some(Preset::TenPedal.name()) {
            Some(Preset::TenPedal)
        }         else if name == Some(Preset::Seven.name()) {
            Some(Preset::Seven)
        }         else if name == Some(Preset::Fourteen.name()) {
            Some(Preset::Fourteen)
        }         else if name == Some(Preset::SevenPedal.name()) {
            Some(Preset::SevenPedal)
        }         else if name == Some(Preset::FourteenPedal.name()) {
            Some(Preset::FourteenPedal)
        }         else if name == Some(Preset::Nine.name()) {
            Some(Preset::Nine)
        }         else if name == Some(Preset::NineBme.name()) {
            Some(Preset::NineBme)
        } else {
            None
        }
    }
}

/// The lanes in which the chart has notes or bombs.
fn present_lanes(objs: &Vec<Obj>) -> (r: Vec<bool>)
    ensures
        r@.len() == NLANES,
        forall|lane: int| 0 <= lane < NLANES ==> r@[lane] == lane_present(objs@, lane),
{
    let mut present: Vec<bool> = Vec::new();
    let mut k: usize = 0;
    while k < NLANES
        invariant
            k <= NLANES,
            present@.len() == k,
            forall|j: int| 0 <= j < k ==> !present@[j],
        decreases NLANES - k,
    {
        present.push(false);
        k += 1;
    }
    let mut i: usize = 0;
    while i < objs.len()
        invariant
            i <= objs@.len(),
            present@.len() == NLANES,
            forall|lane: int|
                0 <= lane < NLANES ==> present@[lane] == lane_present(objs@.take(i as int), lane),
        decreases objs@.len() - i,
    {
        let ghost before = present@;
        let ghost seen = objs@.take(i as int);
        let ghost more = objs@.take(i + 1);
        let found = match objs[i].data {
            crate::obj::ObjData::Visible(lane, _) => Some(lane),
            crate::obj::ObjData::Invisible(lane, _) => Some(lane),
            crate::obj::ObjData::LNStart(lane, _) => Some(lane),
            crate::obj::ObjData::LNDone(lane, _) => Some(lane),
            crate::obj::ObjData::Bomb(lane, _, _) => Some(lane),
            _ => None,
        };
        match found {
            Some(lane) => {
                if lane.0 < NLANES {
                    present[lane.0] = true;
                }
            },
            None => {},
        }
        proof {
            assert(more[i as int] == objs@[i as int]);
            assert forall|lane: int| 0 <= lane < NLANES implies present@[lane] == lane_present(
                more,
                lane,
            ) by {
                if lane_present(seen, lane) {
                    let w = choose|w: int|
                        0 <= w < seen.len() && (#[trigger] seen[w]).data.lane() == Some(
                            Lane(lane as usize),
                        );
                    assert(more[w] == seen[w]);
                }
                if lane_present(more, lane) {
                    let w = choose|w: int|
                        0 <= w < more.len() && (#[trigger] more[w]).data.lane() == Some(
                            Lane(lane as usize),
                        );
                    if w < i {
                        assert(seen[w] == more[w]);
                    }
                }
            }
        }
        i += 1;
    }
    proof {
        assert(objs@.take(objs@.len() as int) =~= objs@);
    }
    present
}

/// Finds the layout that a chart asks for, where `preset` is the name that
/// was asked for, if one was.
pub fn preset_to_key_spec(bms: &Bms, preset: Option<&[u8]>) -> (r: Option<Preset>)
    ensures
        r == preset_of(
            bms.objs@,
            bms.player,
            match preset {
                Some(name) => Some(name@),
                None => None,
            },
        ),
{
    let present = present_lanes(&bms.objs);
    let bms_word = ['b' as u8, 'm' as u8, 's' as u8];
    let bme_word = ['b' as u8, 'm' as u8, 'e' as u8];
    let bml_word = ['b' as u8, 'm' as u8, 'l' as u8];
    let pms_word = ['p' as u8, 'm' as u8, 's' as u8];
    assert(bms_word@ =~= seq!['b' as u8, 'm' as u8, 's' as u8]);
    assert(bme_word@ =~= seq!['b' as u8, 'm' as u8, 'e' as u8]);
    assert(bml_word@ =~= seq!['b' as u8, 'm' as u8, 'l' as u8]);
    assert(pms_word@ =~= seq!['p' as u8, 'm' as u8, 's' as u8]);
    let inferred = match preset {
        None => true,
        Some(name) => is_word(name, bms_word.as_slice()) || is_word(name, bme_word.as_slice())
            || is_word(name, bml_word.as_slice()),
    };
    if inferred {
        let isbme = present[8] || present[9] || present[36 + 8] || present[36 + 9];
        let haspedal = present[7] || present[36 + 7];
        let both = bms.player == COUPLE_PLAY || bms.player == DOUBLE_PLAY;
        return Some(
            if both {
                if isbme {
                    if haspedal {
                        Preset::FourteenPedal
                    } else {
                        Preset::Fourteen
                    }
                } else {
                    if haspedal {
                        Preset::TenPedal
                    } else {
                        Preset::Ten
                    }
                }
            } else {
                if isbme {
                    if haspedal {
                        Preset::SevenPedal
                    } else {
                        Preset::Seven
                    }
                } else {
                    if haspedal {
                        Preset::FivePedal
                    } else {
                        Preset::Five
                    }
                }
            },
        );
    }
    let name = match preset {
        Some(name) => name,
        None => {
            return None;
        },
    };
    if is_word(name, pms_word.as_slice()) {
        let isbme = present[6] || present[7] || present[8] || present[9];
        return Some(
            if isbme {
                Preset::NineBme
            } else {
                Preset::Nine
            },
        );
    }
    if is_word(name, Preset::Five.name_text().as_slice()) {
        return Some(Preset::Five);
    }
    if is_word(name, Preset::Ten.name_text().as_slice()) {
        return Some(Preset::Ten);
    }
    if is_word(name, Preset::FivePedal.name_text().as_slice()) {
        return Some(Preset::FivePedal);
    }
    if is_word(name, Preset::TenPedal.name_text().as_slice()) {
        return Some(Preset::TenPedal);
    }
    if is_word(name, Preset::Seven.name_text().as_slice()) {
        return Some(Preset::Seven);
    }
    if is_word(name, Preset::Fourteen.name_text().as_slice()) {
        return Some(Preset::Fourteen);
    }
    if is_word(name, Preset::SevenPedal.name_text().as_slice()) {
        return Some(Preset::SevenPedal);
    }
    if is_word(name, Preset::FourteenPedal.name_text().as_slice()) {
        return Some(Preset::FourteenPedal);
    }
    if is_word(name, Preset::Nine.name_text().as_slice()) {
        return Some(Preset::Nine);
    }
    if is_word(name, Preset::NineBme.name_text().as_slice()) {
        return Some(Preset::NineBme);
    }
    None
}

/// Why no key specification could be made.
#[derive(Clone, Copy, Debug, PartialEq, Eq, Structural)]
pub enum KeySpecError {
    /// The layout that was asked for by name does not exist.
    InvalidPreset,
    /// No lanes were given for the left side.
    NoKeyModel,
    /// The key specification of the left side cannot be read, is empty or
    /// names a lane twice.
    InvalidLeft,
    /// The key specification of the right side cannot be read or names a
    /// lane twice.
    InvalidRight,
}

/// [`KeySpec`] as a mathematical value.
pub struct KeySpecModel {
    pub split: usize,
    pub order: Seq<Lane>,
    pub kinds: Seq<Option<KeyKind>>,
}

impl View for KeySpec {
    type V = KeySpecModel;

    open spec fn view(&self) -> KeySpecModel {
        KeySpecModel { split: self.split, order: self.order@, kinds: self.kinds@ }
    }
}

/// Whether every lane of the order has a kind.
pub open spec fn kinds_known(spec: KeySpecModel) -> bool {
    forall|i: int| 0 <= i < spec.order.len() ==> spec.kinds[(#[trigger] spec.order[i]).0 as int] is Some
}

/// The key specification with the first `n` of the lanes `specs` added, or
/// `None` if one of them was there before.
pub open spec fn with_lanes(spec: KeySpecModel, specs: Seq<(Lane, KeyKind)>, n: int) -> Option<
    KeySpecModel,
>
    decreases n,
{
    if n <= 0 {
        Some(spec)
    } else {
        match with_lanes(spec, specs, n - 1) {
            Some(before) => {
                let (lane, kind) = specs[n - 1];
                if before.kinds[lane.0 as int] is Some {
                    None
                } else {
                    Some(
                        KeySpecModel {
                            order: before.order.push(lane),
                            kinds: before.kinds.update(lane.0 as int, Some(kind)),
                            ..before
                        },
                    )
                }
            },
            None => None,
        }
    }
}

/// The key specification with the lanes that the text `keys` names added,
/// and the number of these lanes; or `None` if the text cannot be read,
/// names no lane, or names a lane that was there before.
pub open spec fn with_side(spec: KeySpecModel, keys: Seq<u8>) -> Option<(KeySpecModel, int)> {
    match key_spec_of(keys) {
        Some(specs) => if specs.len() == 0 {
            None
        } else {
            match with_lanes(spec, specs, specs.len() as int) {
                Some(after) => Some((after, specs.len() as int)),
                None => None,
            }
        },
        None => None,
    }
}

/// The key specification made of the texts for the two sides. The lanes of
/// the right side count to the left where the sides are not drawn apart,
/// that is, but in couple play.
pub open spec fn key_spec_from(player: i64, left: Seq<u8>, right: Seq<u8>) -> Result<
    KeySpecModel,
    KeySpecError,
> {
    let empty = KeySpecModel {
        split: 0,
        order: Seq::empty(),
        kinds: Seq::new(NLANES as nat, |i: int| None),
    };
    if left.len() == 0 {
        Err(KeySpecError::NoKeyModel)
    } else {
        match with_side(empty, left) {
            None => Err(KeySpecError::InvalidLeft),
            Some((lefts, n)) => {
                let lefts = KeySpecModel { split: n as usize, ..lefts };
                if right.len() == 0 {
                    Ok(lefts)
                } else {
                    match with_side(lefts, right) {
                        None => Err(KeySpecError::InvalidRight),
                        Some((both, m)) => Ok(
                            if player != COUPLE_PLAY {
                                KeySpecModel { split: (n + m) as usize, ..both }
                            } else {
                                both
                            },
                        ),
                    }
                }
            },
        }
    }
}

/// Whether the path ends in `.pms`, in either case.
pub open spec fn is_pms_path(path: Seq<u8>) -> bool {
    path.len() >= 4 && lowered(path.subrange(path.len() - 4, path.len() as int)) == seq![
        '.' as u8,
        'p' as u8,
        'm' as u8,
        's' as u8,
    ]
}

/// The key specification for a chart. Where neither side is given, the
/// layout is found from the name `preset`, or from the chart where no name
/// is given; a chart whose path ends in `.pms` then counts as asking for
/// `pms`.
pub open spec fn key_spec_for(
    objs: Seq<Obj>,
    player: i64,
    path: Seq<u8>,
    preset: Option<Seq<u8>>,
    left: Option<Seq<u8>>,
    right: Option<Seq<u8>>,
) -> Result<KeySpecModel, KeySpecError> {
    if left is None && right is None {
        let name = if preset is None && is_pms_path(path) {
            Some(seq!['p' as u8, 'm' as u8, 's' as u8])
        } else {
            preset
        };
        match preset_of(objs, player, name) {
            Some(layout) => key_spec_from(player, layout.left(), layout.right()),
            None => Err(KeySpecError::InvalidPreset),
        }
    } else {
        key_spec_from(
            player,
            match left {
                Some(keys) => keys,
                None => Seq::empty(),
            },
            match right {
                Some(keys) => keys,
                None => Seq::empty(),
            },
        )
    }
}

/// Whether every lane of the order is a lane of a chart and has a kind.
pub open spec fn lanes_known(spec: KeySpecModel) -> bool {
    forall|i: int|
        0 <= i < spec.order.len() ==> (#[trigger] spec.order[i]).0 < NLANES
            && spec.kinds[spec.order[i].0 as int] is Some
}

/// Adds the lanes that the text `keys` names to the key specification, and
/// returns their number.
fn parse_and_add(keyspec: &mut KeySpec, keys: &[u8]) -> (r: Option<usize>)
    requires
        old(keyspec).kinds@.len() == NLANES,
        lanes_known(old(keyspec)@),
    ensures
        lanes_known(final(keyspec)@),
        r is Some <==> with_side(old(keyspec)@, keys@) is Some,
        r matches Some(n) ==> with_side(old(keyspec)@, keys@) == Some((final(keyspec)@, n as int)),
        final(keyspec).kinds@.len() == NLANES,
        final(keyspec).split == old(keyspec).split,
        r matches Some(n) ==> final(keyspec).order@.len() == old(keyspec).order@.len() + n,
{
    let specs = match parse_key_spec(keys) {
        Some(specs) => specs,
        None => {
            return None;
        },
    };
    if specs.len() == 0 {
        return None;
    }
    let ghost start = keyspec@;
    let mut i: usize = 0;
    while i < specs.len()
        invariant
            i <= specs@.len(),
            keyspec.kinds@.len() == NLANES,
            lanes_known(keyspec@),
            keyspec.split == old(keyspec).split,
            keyspec.order@.len() == old(keyspec).order@.len() + i,
            start == old(keyspec)@,
            key_spec_of(keys@) == Some(specs@),
            specs@.len() > 0,
            forall|j: int| 0 <= j < specs@.len() ==> (#[trigger] specs@[j]).0.0 < NLANES,
            with_lanes(start, specs@, i as int) == Some(keyspec@),
        decreases specs@.len() - i,
    {
        let (lane, kind) = specs[i];
        if keyspec.kinds[lane.0].is_some() {
            proof {
                assert(specs@[i as int] == (lane, kind));
                assert(with_lanes(start, specs@, i + 1) is None);
                lemma_with_lanes_fails(start, specs@, i + 1, specs@.len() as int);
            }
            return None;
        }
        let ghost before = keyspec@;
        keyspec.order.push(lane);
        keyspec.kinds[lane.0] = Some(kind);
        assert forall|j: int| 0 <= j < keyspec@.order.len() implies (#[trigger] keyspec@.order[j]).0
            < NLANES && keyspec@.kinds[keyspec@.order[j].0 as int] is Some by {
            if j < before.order.len() {
                assert(keyspec@.order[j] == before.order[j]);
            }
        }
        i += 1;
    }
    Some(specs.len())
}

/// Once a lane could not be added, no later one makes up for it.
pub proof fn lemma_with_lanes_fails(spec: KeySpecModel, specs: Seq<(Lane, KeyKind)>, n: int, m: int)
    requires
        0 <= n <= m,
        with_lanes(spec, specs, n) is None,
    ensures
        with_lanes(spec, specs, m) is None,
    decreases m - n,
{
    if n < m {
        lemma_with_lanes_fails(spec, specs, n, m - 1);
    }
}

/// A list with no kind for any lane.
fn no_kinds() -> (r: Vec<Option<KeyKind>>)
    ensures
        r@ == Seq::new(NLANES as nat, |i: int| None::<KeyKind>),
{
    let mut r: Vec<Option<KeyKind>> = Vec::new();
    let mut i: usize = 0;
    while i < NLANES
        invariant
            i <= NLANES,
            r@.len() == i,
            forall|j: int| 0 <= j < i ==> r@[j] is None,
        decreases NLANES - i,
    {
        r.push(None);
        i += 1;
    }
    assert(r@ =~= Seq::new(NLANES as nat, |i: int| None::<KeyKind>));
    r
}

/// Makes the key specification of the texts for the two sides.
pub fn key_spec_from_sides(player: i64, left: &[u8], right: &[u8]) -> (r: Result<
    KeySpec,
    KeySpecError,
>)
    ensures
        r matches Ok(keyspec) ==> key_spec_from(player, left@, right@) == Ok::<
            KeySpecModel,
            KeySpecError,
        >(keyspec@) && keyspec.valid(),
        r matches Err(e) ==> key_spec_from(player, left@, right@) == Err::<
            KeySpecModel,
            KeySpecError,
        >(e),
{
    let mut keyspec = KeySpec { split: 0, order: Vec::new(), kinds: no_kinds() };
    if left.len() == 0 {
        return Err(KeySpecError::NoKeyModel);
    }
    let n = match parse_and_add(&mut keyspec, left) {
        None => {
            return Err(KeySpecError::InvalidLeft);
        },
        Some(n) => n,
    };
    keyspec.split = n;
    if right.len() != 0 {
        match parse_and_add(&mut keyspec, right) {
            None => {
                return Err(KeySpecError::InvalidRight);
            },
            Some(m) => {
                if player != COUPLE_PLAY {
                    keyspec.split = keyspec.order.len();
                }
            },
        }
    }
    Ok(keyspec)
}

/// Finds the key specification for a chart: from the texts for the two
/// sides where one is given, and else from the layout that `preset` names
/// or the chart asks for.
pub fn key_spec(
    bms: &Bms,
    path: &[u8],
    preset: Option<&[u8]>,
    left: Option<&[u8]>,
    right: Option<&[u8]>,
) -> (r: Result<KeySpec, KeySpecError>)
    ensures
        r matches Ok(keyspec) ==> key_spec_for(
            bms.objs@,
            bms.player,
            path@,
            bytes_view(preset),
            bytes_view(left),
            bytes_view(right),
        ) == Ok::<KeySpecModel, KeySpecError>(keyspec@) && keyspec.valid(),
        r matches Err(e) ==> key_spec_for(
            bms.objs@,
            bms.player,
            path@,
            bytes_view(preset),
            bytes_view(left),
            bytes_view(right),
        ) == Err::<KeySpecModel, KeySpecError>(e),
{
    if left.is_none() && right.is_none() {
        let pms_word = ['p' as u8, 'm' as u8, 's' as u8];
        assert(pms_word@ =~= seq!['p' as u8, 'm' as u8, 's' as u8]);
        let suffix = ['.' as u8, 'p' as u8, 'm' as u8, 's' as u8];
        assert(suffix@ =~= seq!['.' as u8, 'p' as u8, 'm' as u8, 's' as u8]);
        let is_pms = path.len() >= 4 && is_word(
            slice_subrange(path, path.len() - 4, path.len()),
            suffix.as_slice(),
        );
        let layout = if preset.is_none() && is_pms {
            preset_to_key_spec(bms, Some(pms_word.as_slice()))
        } else {
            preset_to_key_spec(bms, preset)
        };
        match layout {
            Some(layout) => {
                let l = layout.left_text();
                let r = layout.right_text();
                key_spec_from_sides(bms.player, l.as_slice(), r.as_slice())
            },
            None => Err(KeySpecError::InvalidPreset),
        }
    } else {
        let none: [u8; 0] = [];
        assert(none@ =~= Seq::<u8>::empty());
        let l = match left {
            Some(keys) => keys,
            None => none.as_slice(),
        };
        let r = match right {
            Some(keys) => keys,
            None => none.as_slice(),
        };
        key_spec_from_sides(bms.player, l, r)
    }
}

/// A text, if there is one, as a sequence.
pub open spec fn bytes_view(t: Option<&[u8]>) -> Option<Seq<u8>> {
    match t {
        Some(s) => Some(s@),
        None => None,
    }
}

} // verus!
