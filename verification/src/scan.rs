//! Reading numbers and blanks out of a line of text.
//!
//! A line is a sequence of bytes. Every reader takes the line and a position
//! in it, and returns what it read together with the position behind it.

use vstd::prelude::*;
use crate::ratio::{canonical, quot, representable, Ratio};

verus! {

/// Whether `c` is a blank: space, tab, line feed, vertical tab, form feed or
/// carriage return.
pub open spec fn is_space(c: u8) -> bool {
    c == ' ' as u8 || (0x09 <= c <= 0x0d)
}

/// Whether `c` is a decimal digit.
pub open spec fn is_digit(c: u8) -> bool {
    '0' as u8 <= c <= '9' as u8
}

/// The first position at or behind `pos` that holds no blank.
pub open spec fn skip_spaces(s: Seq<u8>, pos: int) -> int
    decreases s.len() - pos,
{
    if 0 <= pos < s.len() && is_space(s[pos]) {
        skip_spaces(s, pos + 1)
    } else {
        pos
    }
}

/// The first position at or behind `pos` that holds no digit.
pub open spec fn skip_digits(s: Seq<u8>, pos: int) -> int
    decreases s.len() - pos,
{
    if 0 <= pos < s.len() && is_digit(s[pos]) {
        skip_digits(s, pos + 1)
    } else {
        pos
    }
}

/// The end of the text from `pos` up to `end` without the blanks that
/// close it.
pub open spec fn trimmed_end(s: Seq<u8>, pos: int, end: int) -> int
    decreases end - pos,
{
    if 0 <= pos < end <= s.len() && is_space(s[end - 1]) {
        trimmed_end(s, pos, end - 1)
    } else {
        end
    }
}

/// The number that the digits from `from` up to `to` spell.
pub open spec fn digits_value(s: Seq<u8>, from: int, to: int) -> nat
    decreases to - from,
{
    if to <= from {
        0
    } else {
        digits_value(s, from, to - 1) * 10 + (s[to - 1] - '0' as u8) as nat
    }
}

/// Ten to the power of `k`.
pub open spec fn pow10(k: nat) -> nat
    decreases k,
{
    if k == 0 {
        1
    } else {
        10 * pow10((k - 1) as nat)
    }
}

pub proof fn lemma_skip_spaces_bounds(s: Seq<u8>, pos: int)
    requires
        0 <= pos <= s.len(),
    ensures
        pos <= skip_spaces(s, pos) <= s.len(),
        forall|i: int| pos <= i < skip_spaces(s, pos) ==> is_space(#[trigger] s[i]),
        skip_spaces(s, pos) < s.len() ==> !is_space(s[skip_spaces(s, pos)]),
    decreases s.len() - pos,
{
    if pos < s.len() && is_space(s[pos]) {
        lemma_skip_spaces_bounds(s, pos + 1);
    }
}

pub proof fn lemma_skip_digits_bounds(s: Seq<u8>, pos: int)
    requires
        0 <= pos <= s.len(),
    ensures
        pos <= skip_digits(s, pos) <= s.len(),
        forall|i: int| pos <= i < skip_digits(s, pos) ==> is_digit(#[trigger] s[i]),
        skip_digits(s, pos) < s.len() ==> !is_digit(s[skip_digits(s, pos)]),
    decreases s.len() - pos,
{
    if pos < s.len() && is_digit(s[pos]) {
        lemma_skip_digits_bounds(s, pos + 1);
    }
}

/// Digits that follow only make a number larger.
pub proof fn lemma_digits_value_grows(s: Seq<u8>, from: int, mid: int, to: int)
    requires
        from <= mid <= to,
    ensures
        digits_value(s, from, mid) <= digits_value(s, from, to),
    decreases to - mid,
{
    if mid < to {
        lemma_digits_value_grows(s, from, mid, to - 1);
    }
}

/// A number of `k` digits is below ten to the power of `k`.
pub proof fn lemma_digits_value_bound(s: Seq<u8>, from: int, to: int)
    requires
        0 <= from <= to <= s.len(),
        forall|i: int| from <= i < to ==> is_digit(#[trigger] s[i]),
    ensures
        digits_value(s, from, to) < pow10((to - from) as nat),
    decreases to - from,
{
    if from < to {
        lemma_digits_value_bound(s, from, to - 1);
        assert(is_digit(s[to - 1]));
    }
}

/// Skips blanks.
pub fn trim_left(s: &[u8], pos: usize) -> (r: usize)
    requires
        pos <= s@.len(),
    ensures
        r == skip_spaces(s@, pos as int),
        pos <= r <= s@.len(),
{
    let mut i = pos;
    while i < s.len() && is_space_byte(s[i])
        invariant
            pos <= i <= s@.len(),
            skip_spaces(s@, pos as int) == skip_spaces(s@, i as int),
        decreases s@.len() - i,
    {
        i += 1;
    }
    i
}

/// The end of the line without the blanks that close it, but not before
/// `pos`.
pub fn trim_right(s: &[u8], pos: usize) -> (r: usize)
    requires
        pos <= s@.len(),
    ensures
        r == trimmed_end(s@, pos as int, s@.len() as int),
        pos <= r <= s@.len(),
{
    let mut end = s.len();
    while pos < end && is_space_byte(s[end - 1])
        invariant
            pos <= end <= s@.len(),
            trimmed_end(s@, pos as int, s@.len() as int) == trimmed_end(
                s@,
                pos as int,
                end as int,
            ),
        decreases end,
    {
        end -= 1;
    }
    end
}

/// Whether `c` is a blank.
pub fn is_space_byte(c: u8) -> (r: bool)
    ensures
        r == is_space(c),
{
    c == ' ' as u8 || (0x09 <= c && c <= 0x0d)
}

/// Whether `c` is a decimal digit.
pub fn is_digit_byte(c: u8) -> (r: bool)
    ensures
        r == is_digit(c),
{
    '0' as u8 <= c && c <= '9' as u8
}

/// The position behind the digits that start at `pos`, if there is a digit.
pub fn scan_uint(s: &[u8], pos: usize) -> (r: Option<usize>)
    requires
        pos <= s@.len(),
    ensures
        r is Some <==> skip_digits(s@, pos as int) > pos,
        r matches Some(end) ==> end == skip_digits(s@, pos as int) && end <= s@.len(),
{
    let mut i = pos;
    while i < s.len() && is_digit_byte(s[i])
        invariant
            pos <= i <= s@.len(),
            skip_digits(s@, pos as int) == skip_digits(s@, i as int),
        decreases s@.len() - i,
    {
        i += 1;
    }
    if i > pos {
        Some(i)
    } else {
        None
    }
}

/// Where a sign at `pos`, if there is one, ends.
pub open spec fn skip_sign(s: Seq<u8>, pos: int) -> int {
    if 0 <= pos < s.len() && (s[pos] == '-' as u8 || s[pos] == '+' as u8) {
        pos + 1
    } else {
        pos
    }
}

/// Where the integer that starts at `pos` ends: an optional sign, then
/// digits, of which there is at least one.
pub open spec fn integer_end(s: Seq<u8>, pos: int) -> Option<int> {
    let start = skip_sign(s, pos);
    if skip_digits(s, start) > start {
        Some(skip_digits(s, start))
    } else {
        None
    }
}

/// The position behind the integer that starts at `pos`.
pub fn scan_int(s: &[u8], pos: usize) -> (r: Option<usize>)
    requires
        pos <= s@.len(),
    ensures
        r is Some <==> integer_end(s@, pos as int) is Some,
        r matches Some(end) ==> integer_end(s@, pos as int) == Some(end as int) && pos < end
            <= s@.len(),
{
    if pos < s.len() && (s[pos] == '-' as u8 || s[pos] == '+' as u8) {
        scan_uint(s, pos + 1)
    } else {
        scan_uint(s, pos)
    }
}

/// Where the decimal number that starts at `pos` ends: an integer, then
/// optionally a point with digits behind it, then optionally `e` or `E`
/// with an integer behind it. A point or an `e` without what must follow
/// spoils the whole number.
pub open spec fn decimal_end(s: Seq<u8>, pos: int) -> Option<int> {
    match integer_end(s, pos) {
        None => None,
        Some(p1) => {
            let p2 = if p1 < s.len() && s[p1] == '.' as u8 {
                if skip_digits(s, p1 + 1) > p1 + 1 {
                    Some(skip_digits(s, p1 + 1))
                } else {
                    None
                }
            } else {
                Some(p1)
            };
            match p2 {
                None => None,
                Some(p2) => if p2 < s.len() && (s[p2] == 'e' as u8 || s[p2] == 'E' as u8) {
                    integer_end(s, p2 + 1)
                } else {
                    Some(p2)
                },
            }
        },
    }
}

/// The position behind the decimal number that starts at `pos`.
pub fn scan_float(s: &[u8], pos: usize) -> (r: Option<usize>)
    requires
        pos <= s@.len(),
    ensures
        r is Some <==> decimal_end(s@, pos as int) is Some,
        r matches Some(end) ==> decimal_end(s@, pos as int) == Some(end as int) && pos < end
            <= s@.len(),
{
    let p1 = match scan_int(s, pos) {
        None => {
            return None;
        },
        Some(p1) => p1,
    };
    let p2 = if p1 < s.len() && s[p1] == '.' as u8 {
        match scan_uint(s, p1 + 1) {
            None => {
                return None;
            },
            Some(p2) => p2,
        }
    } else {
        p1
    };
    if p2 < s.len() && (s[p2] == 'e' as u8 || s[p2] == 'E' as u8) {
        scan_int(s, p2 + 1)
    } else {
        Some(p2)
    }
}

/// The unsigned number at `pos` and where it ends: at least one digit, and a
/// value that 64 bits hold.
pub open spec fn uint_at(s: Seq<u8>, pos: int) -> Option<(u64, int)> {
    let end = skip_digits(s, pos);
    if end > pos && digits_value(s, pos, end) <= u64::MAX {
        Some((digits_value(s, pos, end) as u64, end))
    } else {
        None
    }
}

/// Whether a minus sign stands at `pos`.
pub open spec fn minus_at(s: Seq<u8>, pos: int) -> bool {
    0 <= pos < s.len() && s[pos] == '-' as u8
}

/// The signed number at `pos` and where it ends: an optional sign, at least
/// one digit, and a value that 64 bits hold.
pub open spec fn int_at(s: Seq<u8>, pos: int) -> Option<(i64, int)> {
    match integer_end(s, pos) {
        None => None,
        Some(end) => {
            let magnitude = digits_value(s, skip_sign(s, pos), end) as int;
            let value = if minus_at(s, pos) {
                -magnitude
            } else {
                magnitude
            };
            if i64::MIN <= value <= i64::MAX {
                Some((value as i64, end))
            } else {
                None
            }
        },
    }
}

/// The parts of the decimal number at `pos`: where the digits before the
/// point end, where those behind it end, and the exponent.
pub struct DecimalParts {
    pub negative: bool,
    pub whole: nat,
    pub fraction: nat,
    pub places: nat,
    pub exponent: Option<int>,
    pub end: int,
}

/// Takes the decimal number at `pos` apart.
pub open spec fn decimal_parts(s: Seq<u8>, pos: int) -> Option<DecimalParts> {
    match decimal_end(s, pos) {
        None => None,
        Some(end) => {
            let start = skip_sign(s, pos);
            let p1 = skip_digits(s, start);
            let pointed = p1 < s.len() && s[p1] == '.' as u8;
            let p2 = if pointed {
                skip_digits(s, p1 + 1)
            } else {
                p1
            };
            let powered = p2 < s.len() && (s[p2] == 'e' as u8 || s[p2] == 'E' as u8);
            Some(
                DecimalParts {
                    negative: minus_at(s, pos),
                    whole: digits_value(s, start, p1),
                    fraction: if pointed {
                        digits_value(s, p1 + 1, p2)
                    } else {
                        0
                    },
                    places: if pointed {
                        (p2 - p1 - 1) as nat
                    } else {
                        0
                    },
                    exponent: if powered {
                        match int_at(s, p2 + 1) {
                            Some((e, _)) => Some(e as int),
                            None => None,
                        }
                    } else {
                        Some(0)
                    },
                    end,
                },
            )
        },
    }
}

impl DecimalParts {
    /// The number without its exponent.
    pub open spec fn mantissa(self) -> real {
        let digits = (self.whole * pow10(self.places) + self.fraction) as int;
        quot(if self.negative { -digits } else { digits }, pow10(self.places) as int)
    }

    /// The number.
    pub open spec fn value(self) -> real {
        match self.exponent {
            Some(e) => if e >= 0 {
                self.mantissa() * (pow10(e as nat) as real)
            } else {
                self.mantissa() / (pow10((-e) as nat) as real)
            },
            None => 0real,
        }
    }

    /// Whether the number is read: at most 18 places behind the point, an
    /// exponent from -18 to 18, digits before the point that 64 bits hold,
    /// and a value that can be represented with and without the exponent.
    pub open spec fn readable(self) -> bool {
        &&& self.whole <= u64::MAX
        &&& self.places <= 18
        &&& self.exponent matches Some(e) && -18 <= e <= 18
        &&& representable(self.mantissa())
        &&& representable(self.value())
    }
}

/// The decimal number at `pos` and where it ends.
pub open spec fn decimal_at(s: Seq<u8>, pos: int) -> Option<(Ratio, int)> {
    match decimal_parts(s, pos) {
        None => None,
        Some(parts) => if parts.readable() {
            Some((canonical(parts.value()), parts.end))
        } else {
            None
        },
    }
}

/// The number that the digits from `from` up to `to` spell, if 64 bits hold
/// it.
fn digits_to_u64(s: &[u8], from: usize, to: usize) -> (r: Option<u64>)
    requires
        from <= to <= s@.len(),
        forall|i: int| from <= i < to ==> is_digit(#[trigger] s@[i]),
    ensures
        r is Some <==> digits_value(s@, from as int, to as int) <= u64::MAX,
        r matches Some(v) ==> v == digits_value(s@, from as int, to as int),
{
    let mut v: u64 = 0;
    let mut i = from;
    while i < to
        invariant
            from <= i <= to <= s@.len(),
            forall|j: int| from <= j < to ==> is_digit(#[trigger] s@[j]),
            v == digits_value(s@, from as int, i as int),
        decreases to - i,
    {
        let d = (s[i] - '0' as u8) as u64;
        assert(is_digit(s@[i as int]));
        if v > (u64::MAX - d) / 10 {
            proof {
                lemma_digits_value_grows(s@, from as int, i + 1, to as int);
            }
            return None;
        }
        v = v * 10 + d;
        i += 1;
    }
    Some(v)
}

/// Ten to the power of `k`.
fn pow10_u64(k: usize) -> (r: u64)
    requires
        k <= 18,
    ensures
        r == pow10(k as nat),
        1 <= r <= 1_000_000_000_000_000_000,
{
    let mut r: u64 = 1;
    let mut i: usize = 0;
    proof {
        reveal_with_fuel(pow10, 19);
        assert(pow10(18) == 1_000_000_000_000_000_000);
    }
    while i < k
        invariant
            i <= k <= 18,
            r == pow10(i as nat),
            1 <= r,
            r * pow10((18 - i) as nat) == 1_000_000_000_000_000_000,
        decreases k - i,
    {
        proof {
            lemma_pow10_positive((17 - i) as nat);
        }
        assert(pow10((18 - i) as nat) == 10 * pow10((17 - i) as nat));
        assert(r * 10 * pow10((17 - i) as nat) == 1_000_000_000_000_000_000) by (nonlinear_arith)
            requires
                r * (10 * pow10((17 - i) as nat)) == 1_000_000_000_000_000_000,
        {
        }
        assert(r * 10 <= 1_000_000_000_000_000_000) by (nonlinear_arith)
            requires
                r * 10 * pow10((17 - i) as nat) == 1_000_000_000_000_000_000,
                pow10((17 - i) as nat) >= 1,
                r >= 1,
        {
        }
        r = r * 10;
        i += 1;
    }
    proof {
        lemma_pow10_positive((18 - k) as nat);
        assert(r * pow10((18 - k) as nat) == 1_000_000_000_000_000_000);
        assert(r <= 1_000_000_000_000_000_000) by (nonlinear_arith)
            requires
                r * pow10((18 - k) as nat) == 1_000_000_000_000_000_000,
                pow10((18 - k) as nat) >= 1,
                r >= 1,
        {
        }
    }
    r
}

/// Ten to any power is at least one.
pub proof fn lemma_pow10_positive(k: nat)
    ensures
        pow10(k) >= 1,
    decreases k,
{
    if k > 0 {
        lemma_pow10_positive((k - 1) as nat);
    }
}

/// Reads an unsigned number.
pub fn read_uint(s: &[u8], pos: usize) -> (r: Option<(u64, usize)>)
    requires
        pos <= s@.len(),
    ensures
        r is Some <==> uint_at(s@, pos as int) is Some,
        r matches Some((v, end)) ==> uint_at(s@, pos as int) == Some((v, end as int)) && pos < end
            <= s@.len(),
{
    match scan_uint(s, pos) {
        None => None,
        Some(end) => {
            proof {
                lemma_skip_digits_bounds(s@, pos as int);
            }
            match digits_to_u64(s, pos, end) {
                None => None,
                Some(v) => Some((v, end)),
            }
        },
    }
}

/// Reads a signed number.
pub fn read_int(s: &[u8], pos: usize) -> (r: Option<(i64, usize)>)
    requires
        pos <= s@.len(),
    ensures
        r is Some <==> int_at(s@, pos as int) is Some,
        r matches Some((v, end)) ==> int_at(s@, pos as int) == Some((v, end as int)) && pos < end
            <= s@.len(),
{
    match scan_int(s, pos) {
        None => None,
        Some(end) => {
            let negative = s[pos] == '-' as u8;
            let start = if s[pos] == '-' as u8 || s[pos] == '+' as u8 {
                pos + 1
            } else {
                pos
            };
            proof {
                lemma_skip_digits_bounds(s@, start as int);
            }
            match digits_to_u64(s, start, end) {
                None => None,
                Some(v) => if negative {
                    if v <= 0x8000_0000_0000_0000 {
                        let value: i64 = if v == 0x8000_0000_0000_0000 {
                            i64::MIN
                        } else {
                            -(v as i64)
                        };
                        Some((value, end))
                    } else {
                        None
                    }
                } else {
                    if v <= 0x7fff_ffff_ffff_ffff {
                        Some((v as i64, end))
                    } else {
                        None
                    }
                },
            }
        },
    }
}

/// Reads a decimal number.
pub fn read_decimal(s: &[u8], pos: usize) -> (r: Option<(Ratio, usize)>)
    requires
        pos <= s@.len(),
    ensures
        r is Some <==> decimal_at(s@, pos as int) is Some,
        r matches Some((v, end)) ==> decimal_at(s@, pos as int) == Some((v, end as int)) && pos
            < end <= s@.len(),
{
    let end = match scan_float(s, pos) {
        None => {
            return None;
        },
        Some(end) => end,
    };
    let ghost parts = decimal_parts(s@, pos as int).unwrap();
    let negative = s[pos] == '-' as u8;
    let start = if s[pos] == '-' as u8 || s[pos] == '+' as u8 {
        pos + 1
    } else {
        pos
    };
    let p1 = match scan_uint(s, start) {
        None => {
            return None;
        },
        Some(p1) => p1,
    };
    let pointed = p1 < s.len() && s[p1] == '.' as u8;
    let p2 = if pointed {
        match scan_uint(s, p1 + 1) {
            None => {
                return None;
            },
            Some(p2) => p2,
        }
    } else {
        p1
    };
    let powered = p2 < s.len() && (s[p2] == 'e' as u8 || s[p2] == 'E' as u8);
    proof {
        lemma_skip_digits_bounds(s@, start as int);
        if pointed {
            lemma_skip_digits_bounds(s@, p1 + 1);
        }
    }
    let whole = match digits_to_u64(s, start, p1) {
        None => {
            return None;
        },
        Some(whole) => whole,
    };
    let places = if pointed {
        p2 - p1 - 1
    } else {
        0
    };
    if places > 18 {
        return None;
    }
    let scale = pow10_u64(places);
    let fraction: u64 = if pointed {
        proof {
            lemma_digits_value_bound(s@, p1 + 1, p2 as int);
        }
        match digits_to_u64(s, p1 + 1, p2) {
            None => {
                return None;
            },
            Some(fraction) => fraction,
        }
    } else {
        0
    };
    let exponent: i64 = if powered {
        match read_int(s, p2 + 1) {
            None => {
                return None;
            },
            Some((e, _)) => e,
        }
    } else {
        0
    };
    if exponent < -18 || exponent > 18 {
        return None;
    }
    assert(whole * scale <= 0xffff_ffff_ffff_ffff * 1_000_000_000_000_000_000) by (nonlinear_arith)
        requires
            0 <= whole <= 0xffff_ffff_ffff_ffff,
            0 <= scale <= 1_000_000_000_000_000_000,
    {
    }
    let digits: i128 = (whole as i128) * (scale as i128) + (fraction as i128);
    let n = if negative {
        -digits
    } else {
        digits
    };
    let mantissa = match Ratio::from_wide(n, scale as i128) {
        None => {
            return None;
        },
        Some(mantissa) => mantissa,
    };
    assert(mantissa@ == parts.mantissa());
    let value = if exponent >= 0 {
        let power = Ratio::from_int(pow10_u64(exponent as usize) as i64);
        mantissa.mul(&power)
    } else {
        let power = Ratio::from_int(pow10_u64((-exponent) as usize) as i64);
        mantissa.div(&power)
    };
    match value {
        None => None,
        Some(v) => {
            assert(v@ == parts.value());
            Some((v, end))
        },
    }
}

/// What can be read from the front of a text.
pub trait FromStrPrefix: Sized {
    /// What the text at `pos` spells, and where that ends.
    spec fn prefix_at(s: Seq<u8>, pos: int) -> Option<(Self, int)>;

    /// Reads a value at `pos` and returns it with the position behind it.
    fn from_str_prefix(s: &[u8], pos: usize) -> (r: Option<(Self, usize)>)
        requires
            pos <= s@.len(),
        ensures
            r is Some <==> Self::prefix_at(s@, pos as int) is Some,
            r matches Some((v, end)) ==> Self::prefix_at(s@, pos as int) == Some((v, end as int))
                && pos <= end <= s@.len(),
    ;
}

/// Reads a value at `pos` and returns it with the position behind it.
pub fn from_str_prefix<T: FromStrPrefix>(s: &[u8], pos: usize) -> (r: Option<(T, usize)>)
    requires
        pos <= s@.len(),
    ensures
        r is Some <==> T::prefix_at(s@, pos as int) is Some,
        r matches Some((v, end)) ==> T::prefix_at(s@, pos as int) == Some((v, end as int)) && pos
            <= end <= s@.len(),
{
    T::from_str_prefix(s, pos)
}

impl FromStrPrefix for u64 {
    open spec fn prefix_at(s: Seq<u8>, pos: int) -> Option<(u64, int)> {
        uint_at(s, pos)
    }

    fn from_str_prefix(s: &[u8], pos: usize) -> (r: Option<(u64, usize)>) {
        read_uint(s, pos)
    }
}

impl FromStrPrefix for i64 {
    open spec fn prefix_at(s: Seq<u8>, pos: int) -> Option<(i64, int)> {
        int_at(s, pos)
    }

    fn from_str_prefix(s: &[u8], pos: usize) -> (r: Option<(i64, usize)>) {
        read_int(s, pos)
    }
}

impl FromStrPrefix for Ratio {
    open spec fn prefix_at(s: Seq<u8>, pos: int) -> Option<(Ratio, int)> {
        decimal_at(s, pos)
    }

    fn from_str_prefix(s: &[u8], pos: usize) -> (r: Option<(Ratio, usize)>) {
        read_decimal(s, pos)
    }
}

impl FromStrPrefix for u8 {
    open spec fn prefix_at(s: Seq<u8>, pos: int) -> Option<(u8, int)> {
        if 0 <= pos < s.len() {
            Some((s[pos], pos + 1))
        } else {
            None
        }
    }

    fn from_str_prefix(s: &[u8], pos: usize) -> (r: Option<(u8, usize)>) {
        if pos < s.len() {
            Some((s[pos], pos + 1))
        } else {
            None
        }
    }
}

/// Whether `prefix` stands in `s` at `pos`.
pub open spec fn starts_with_at(s: Seq<u8>, pos: int, prefix: Seq<u8>) -> bool {
    0 <= pos && pos + prefix.len() <= s.len() && s.subrange(pos, pos + prefix.len()) == prefix
}

/// What can stand at the front of a text and be taken off it.
pub trait ShiftablePrefix {
    /// The text that `self` stands for.
    spec fn as_text(&self) -> Seq<u8>;

    /// The position behind `self`, if it stands in `s` at `pos`.
    fn prefix_shifted(&self, s: &[u8], pos: usize) -> (r: Option<usize>)
        requires
            pos <= s@.len(),
        ensures
            r is Some <==> starts_with_at(s@, pos as int, self.as_text()),
            r matches Some(end) ==> end == pos + self.as_text().len(),
    ;
}

/// The position behind `prefix`, if it stands in `s` at `pos`.
pub fn prefix_shifted<T: ShiftablePrefix>(s: &[u8], pos: usize, prefix: T) -> (r: Option<usize>)
    requires
        pos <= s@.len(),
    ensures
        r is Some <==> starts_with_at(s@, pos as int, prefix.as_text()),
        r matches Some(end) ==> end == pos + prefix.as_text().len(),
{
    prefix.prefix_shifted(s, pos)
}

impl ShiftablePrefix for u8 {
    open spec fn as_text(&self) -> Seq<u8> {
        seq![*self]
    }

    fn prefix_shifted(&self, s: &[u8], pos: usize) -> (r: Option<usize>) {
        if pos < s.len() && s[pos] == *self {
            assert(s@.subrange(pos as int, pos + 1) =~= seq![*self]);
            Some(pos + 1)
        } else {
            proof {
                if pos < s@.len() {
                    assert(s@.subrange(pos as int, pos + 1)[0] == s@[pos as int]);
                }
            }
            None
        }
    }
}

impl ShiftablePrefix for &[u8] {
    open spec fn as_text(&self) -> Seq<u8> {
        self@
    }

    fn prefix_shifted(&self, s: &[u8], pos: usize) -> (r: Option<usize>) {
        if self.len() > s.len() - pos {
            return None;
        }
        let mut i: usize = 0;
        while i < self.len()
            invariant
                i <= self@.len(),
                pos + self@.len() <= s@.len(),
                forall|j: int| 0 <= j < i ==> s@[pos + j] == self@[j],
            decreases self@.len() - i,
        {
            if s[pos + i] != self[i] {
                proof {
                    assert(s@.subrange(pos as int, pos + self@.len())[i as int] == s@[pos + i]);
                }
                return None;
            }
            i += 1;
        }
        assert(s@.subrange(pos as int, pos + self@.len()) =~= self@);
        Some(pos + self.len())
    }
}

} // verus!
