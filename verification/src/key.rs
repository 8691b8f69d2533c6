//! Two-letter alphanumeric keys.
//!
//! A key names a sound, an image, a tempo or a stop, and doubles as a
//! channel number. Its text is two base-36 digits, `00` to `ZZ`.

use vstd::prelude::*;
use crate::scan::FromStrPrefix;

verus! {

/// The number of alphanumeric keys.
pub const MAXKEY: i64 = 1296;

/// A two-letter alphanumeric key, valid from 0 to 1295.
#[derive(Clone, Copy, Debug, PartialEq, Eq, PartialOrd, Ord, Structural)]
pub struct Key(pub i64);

/// The value of one base-36 digit, letters in either case.
pub open spec fn digit_value(c: u8) -> Option<int> {
    if '0' as u8 <= c <= '9' as u8 {
        Some(c - '0' as u8)
    } else if 'a' as u8 <= c <= 'z' as u8 {
        Some(c - 'a' as u8 + 10)
    } else if 'A' as u8 <= c <= 'Z' as u8 {
        Some(c - 'A' as u8 + 10)
    } else {
        None
    }
}

/// The upper-case character of a base-36 digit.
pub open spec fn digit_char(d: int) -> u8 {
    if d < 10 {
        ('0' as u8 + d) as u8
    } else {
        ('A' as u8 + d - 10) as u8
    }
}

/// The key that the first two characters of `s` spell, if they do.
pub open spec fn key_value(s: Seq<u8>) -> Option<int> {
    if s.len() < 2 {
        None
    } else {
        match (digit_value(s[0]), digit_value(s[1])) {
            (Some(a), Some(b)) => Some(a * 36 + b),
            _ => None,
        }
    }
}

/// The key that the two characters at `pos` spell, and the position behind
/// them.
pub open spec fn key_at(s: Seq<u8>, pos: int) -> Option<(Key, int)> {
    if 0 <= pos && pos + 2 <= s.len() {
        match (digit_value(s[pos]), digit_value(s[pos + 1])) {
            (Some(a), Some(b)) => Some((Key((a * 36 + b) as i64), pos + 2)),
            _ => None,
        }
    } else {
        None
    }
}

/// The two characters that spell the key `k`.
pub open spec fn key_text(k: int) -> Seq<u8> {
    seq![digit_char(k / 36), digit_char(k % 36)]
}

/// The key read as two hexadecimal digits, if both digits are below 16.
pub open spec fn hex_value(k: int) -> Option<int> {
    if k / 36 < 16 && k % 36 < 16 {
        Some((k / 36) * 16 + k % 36)
    } else {
        None
    }
}

/// Reading the text of a key gives the key back.
pub proof fn lemma_key_round_trip(k: int)
    requires
        0 <= k < MAXKEY,
    ensures
        key_value(key_text(k)) == Some(k),
{
    let a = k / 36;
    let b = k % 36;
    assert(0 <= a < 36 && 0 <= b < 36 && k == a * 36 + b);
    assert(digit_value(digit_char(a)) == Some(a));
    assert(digit_value(digit_char(b)) == Some(b));
    assert(key_text(k)[0] == digit_char(a));
    assert(key_text(k)[1] == digit_char(b));
}

/// Converts one base-36 digit to its value.
pub fn getdigit(n: u8) -> (r: Option<i64>)
    ensures
        r is Some <==> digit_value(n) is Some,
        r matches Some(v) ==> digit_value(n) == Some(v as int) && 0 <= v < 36,
{
    if '0' as u8 <= n && n <= '9' as u8 {
        Some((n - '0' as u8) as i64)
    } else if 'a' as u8 <= n && n <= 'z' as u8 {
        Some((n - 'a' as u8) as i64 + 10)
    } else if 'A' as u8 <= n && n <= 'Z' as u8 {
        Some((n - 'A' as u8) as i64 + 10)
    } else {
        None
    }
}

/// Converts the first two letters of `s` to the number of a key.
pub fn key2index(s: &[u8]) -> (r: Option<i64>)
    ensures
        r is Some <==> key_value(s@) is Some,
        r matches Some(v) ==> key_value(s@) == Some(v as int) && 0 <= v < MAXKEY,
{
    if s.len() < 2 {
        return None;
    }
    match getdigit(s[0]) {
        Some(a) => match getdigit(s[1]) {
            Some(b) => Some(a * 36 + b),
            None => None,
        },
        None => None,
    }
}

impl FromStrPrefix for Key {
    open spec fn prefix_at(s: Seq<u8>, pos: int) -> Option<(Key, int)> {
        key_at(s, pos)
    }

    fn from_str_prefix(s: &[u8], pos: usize) -> (r: Option<(Key, usize)>) {
        if s.len() - pos < 2 {
            return None;
        }
        match getdigit(s[pos]) {
            Some(a) => match getdigit(s[pos + 1]) {
                Some(b) => Some((Key(a * 36 + b), pos + 2)),
                None => None,
            },
            None => None,
        }
    }
}

/// A key that has been read is valid.
pub proof fn lemma_key_at_valid(s: Seq<u8>, pos: int)
    ensures
        key_at(s, pos) matches Some((key, end)) ==> 0 <= key.0 < MAXKEY && end == pos + 2,
{
}

impl Key {
    /// Whether the key is in the range `00` to `ZZ`.
    pub fn is_valid(&self) -> (r: bool)
        ensures
            r == (0 <= self.0 < MAXKEY),
    {
        0 <= self.0 && self.0 < MAXKEY
    }

    /// Reads the two digits of the key as hexadecimal digits, which the
    /// channel of literal tempos asks for.
    pub fn to_hex(&self) -> (r: Option<i64>)
        ensures
            r is Some <==> 0 <= self.0 < MAXKEY && hex_value(self.0 as int) is Some,
            r matches Some(v) ==> hex_value(self.0 as int) == Some(v as int) && 0 <= v < 256,
    {
        if !self.is_valid() {
            return None;
        }
        let sixteens = self.0 / 36;
        let ones = self.0 % 36;
        if sixteens < 16 && ones < 16 {
            Some(sixteens * 16 + ones)
        } else {
            None
        }
    }

    /// The two upper-case characters that spell the key.
    pub fn encode(&self) -> (r: [u8; 2])
        requires
            0 <= self.0 < MAXKEY,
        ensures
            r@ == key_text(self.0 as int),
    {
        let sixteens = self.0 / 36;
        let ones = self.0 % 36;
        let hi: u8 = if sixteens < 10 {
            '0' as u8 + (sixteens as u8)
        } else {
            'A' as u8 + ((sixteens - 10) as u8)
        };
        let lo: u8 = if ones < 10 {
            '0' as u8 + (ones as u8)
        } else {
            'A' as u8 + ((ones - 10) as u8)
        };
        let r = [hi, lo];
        assert(r@ =~= key_text(self.0 as int));
        r
    }

    /// Reads a key from the first two characters of `s`.
    pub fn decode(s: &[u8]) -> (r: Option<Key>)
        ensures
            r is Some <==> key_value(s@) is Some,
            r matches Some(k) ==> key_value(s@) == Some(k.0 as int) && 0 <= k.0 < MAXKEY,
    {
        match key2index(s) {
            Some(v) => Some(Key(v)),
            None => None,
        }
    }
}

} // verus!
