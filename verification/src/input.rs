//! The names of input elements.
//!
//! An input element is a key of the keyboard, or a button or an axis of a
//! joystick. A button is written as `button` and its number, an axis as
//! `axis` and its number; anything else is taken for the name of a key.

use vstd::prelude::*;
use crate::directive::Span;
use crate::scan::{
    prefix_shifted, read_uint, skip_spaces, starts_with_at, trim_left, trim_right, trimmed_end, uint_at,
};

verus! {

/// What the name of an input element says.
#[derive(Clone, Copy, Debug, PartialEq, Eq)]
pub enum InputName {
    /// The button of the joystick with the number.
    JoyButton(u64),
    /// The axis of the joystick with the number.
    JoyAxis(u64),
    /// A key of the keyboard; its name is the part of the text.
    Key(Span),
}

/// The word before the number of a button.
pub open spec fn button_word() -> Seq<u8> {
    seq!['b' as u8, 'u' as u8, 't' as u8, 't' as u8, 'o' as u8, 'n' as u8]
}

/// The word before the number of an axis.
pub open spec fn axis_word() -> Seq<u8> {
    seq!['a' as u8, 'x' as u8, 'i' as u8, 's' as u8]
}

/// The number that stands behind the word `word` at `pos`: the word, at
/// least one blank, and a number that 64 bits hold. What follows the
/// number does not matter.
pub open spec fn numbered_at(s: Seq<u8>, pos: int, word: Seq<u8>) -> Option<u64> {
    let p = pos + word.len();
    let q = skip_spaces(s, p);
    if starts_with_at(s, pos, word) && q > p {
        match uint_at(s, q) {
            Some((n, _)) => Some(n),
            None => None,
        }
    } else {
        None
    }
}

/// What the text says, blanks at its ends aside.
pub open spec fn input_name(s: Seq<u8>) -> InputName {
    let from = skip_spaces(s, 0);
    match numbered_at(s, from, button_word()) {
        Some(n) => InputName::JoyButton(n),
        None => match numbered_at(s, from, axis_word()) {
            Some(n) => InputName::JoyAxis(n),
            None => InputName::Key(
                Span { from: from as usize, to: trimmed_end(s, from, s.len() as int) as usize },
            ),
        },
    }
}

/// Reads the number behind a word.
fn read_numbered(s: &[u8], pos: usize, word: &[u8]) -> (r: Option<u64>)
    requires
        pos <= s@.len(),
    ensures
        r == numbered_at(s@, pos as int, word@),
{
    match prefix_shifted(s, pos, word) {
        Some(p) => {
            let q = trim_left(s, p);
            if q > p {
                match read_uint(s, q) {
                    Some((n, _)) => Some(n),
                    None => None,
                }
            } else {
                None
            }
        },
        None => None,
    }
}

/// Reads the name of an input element: `button 2`, `axis 0`, or the name
/// of a key, as in `backspace`.
pub fn parse_input(s: &[u8]) -> (r: InputName)
    ensures
        r == input_name(s@),
        r matches InputName::Key(span) ==> span.from <= span.to <= s@.len(),
{
    let from = trim_left(s, 0);
    let button = ['b' as u8, 'u' as u8, 't' as u8, 't' as u8, 'o' as u8, 'n' as u8];
    assert(button@ =~= button_word());
    let axis = ['a' as u8, 'x' as u8, 'i' as u8, 's' as u8];
    assert(axis@ =~= axis_word());
    match read_numbered(s, from, button.as_slice()) {
        Some(n) => InputName::JoyButton(n),
        None => match read_numbered(s, from, axis.as_slice()) {
            Some(n) => InputName::JoyAxis(n),
            None => InputName::Key(Span { from, to: trim_right(s, from) }),
        },
    }
}

} // verus!
