//! The directives of a source file, one to a line.
//!
//! A line that starts, after blanks, with `#` holds a directive: a keyword
//! and its arguments, or the number of a measure, a channel and the data of
//! that channel in that measure. Any other line, and any line that does not
//! read as its keyword asks, says nothing.

use vstd::prelude::*;
use crate::bms::BlitCmd;
use crate::key::{key_at, Key};
use crate::obj::ImageRef;
use crate::ratio::Ratio;
use crate::scan::{
    decimal_at, int_at, is_digit, is_space, read_decimal, read_int, read_uint, skip_spaces,
    trim_left, trim_right, trimmed_end, uint_at, FromStrPrefix,
};

verus! {

/// The keywords, in the order in which a line is tried against them. Where
/// one keyword starts another, the longer one comes first.
#[derive(Clone, Copy, Debug, PartialEq, Eq, Structural)]
pub enum Header {
    Title,
    Genre,
    Artist,
    StageFile,
    PathWav,
    Bpm,
    Player,
    PlayLevel,
    Rank,
    LnType,
    LnObj,
    Wav,
    Bmp,
    Bga,
    Stop,
    Stp,
    Random,
    SetRandom,
    EndRandom,
    If,
    ElseIf,
    Else,
    EndSw,
    End,
    /// No keyword: the line may hold the data of a channel.
    NoHeader,
}

impl Header {
    /// The keyword in upper case.
    pub open spec fn name(self) -> Seq<u8> {
        match self {
            Header::Title => seq!['T' as u8, 'I' as u8, 'T' as u8, 'L' as u8, 'E' as u8],
            Header::Genre => seq!['G' as u8, 'E' as u8, 'N' as u8, 'R' as u8, 'E' as u8],
            Header::Artist => seq!['A' as u8, 'R' as u8, 'T' as u8, 'I' as u8, 'S' as u8, 'T' as u8],
            Header::StageFile => seq!['S' as u8, 'T' as u8, 'A' as u8, 'G' as u8, 'E' as u8, 'F' as u8, 'I' as u8, 'L' as u8, 'E' as u8],
            Header::PathWav => seq!['P' as u8, 'A' as u8, 'T' as u8, 'H' as u8, '_' as u8, 'W' as u8, 'A' as u8, 'V' as u8],
            Header::Bpm => seq!['B' as u8, 'P' as u8, 'M' as u8],
            Header::Player => seq!['P' as u8, 'L' as u8, 'A' as u8, 'Y' as u8, 'E' as u8, 'R' as u8],
            Header::PlayLevel => seq!['P' as u8, 'L' as u8, 'A' as u8, 'Y' as u8, 'L' as u8, 'E' as u8, 'V' as u8, 'E' as u8, 'L' as u8],
            Header::Rank => seq!['R' as u8, 'A' as u8, 'N' as u8, 'K' as u8],
            Header::LnType => seq!['L' as u8, 'N' as u8, 'T' as u8, 'Y' as u8, 'P' as u8, 'E' as u8],
            Header::LnObj => seq!['L' as u8, 'N' as u8, 'O' as u8, 'B' as u8, 'J' as u8],
            Header::Wav => seq!['W' as u8, 'A' as u8, 'V' as u8],
            Header::Bmp => seq!['B' as u8, 'M' as u8, 'P' as u8],
            Header::Bga => seq!['B' as u8, 'G' as u8, 'A' as u8],
            Header::Stop => seq!['S' as u8, 'T' as u8, 'O' as u8, 'P' as u8],
            Header::Stp => seq!['S' as u8, 'T' as u8, 'P' as u8],
            Header::Random => seq!['R' as u8, 'A' as u8, 'N' as u8, 'D' as u8, 'O' as u8, 'M' as u8],
            Header::SetRandom => seq!['S' as u8, 'E' as u8, 'T' as u8, 'R' as u8, 'A' as u8, 'N' as u8, 'D' as u8, 'O' as u8, 'M' as u8],
            Header::EndRandom => seq!['E' as u8, 'N' as u8, 'D' as u8, 'R' as u8, 'A' as u8, 'N' as u8, 'D' as u8, 'O' as u8, 'M' as u8],
            Header::If => seq!['I' as u8, 'F' as u8],
            Header::ElseIf => seq!['E' as u8, 'L' as u8, 'S' as u8, 'E' as u8, 'I' as u8, 'F' as u8],
            Header::Else => seq!['E' as u8, 'L' as u8, 'S' as u8, 'E' as u8],
            Header::EndSw => seq!['E' as u8, 'N' as u8, 'D' as u8, 'S' as u8, 'W' as u8],
            Header::End => seq!['E' as u8, 'N' as u8, 'D' as u8],
            Header::NoHeader => seq![],
        }
    }
}

/// The upper-case form of a letter, and any other character as it is.
pub open spec fn upper(c: u8) -> u8 {
    if 'a' as u8 <= c <= 'z' as u8 {
        (c - 32) as u8
    } else {
        c
    }
}

/// Whether `word` stands in `s` at `pos`, in either case.
pub open spec fn keyword_at(s: Seq<u8>, pos: int, word: Seq<u8>) -> bool {
    0 <= pos && pos + word.len() <= s.len() && forall|i: int|
        0 <= i < word.len() ==> upper(#[trigger] s[pos + i]) == word[i]
}

/// The first keyword of the list that stands in `s` at `pos`.
pub open spec fn header_at(s: Seq<u8>, pos: int) -> Header {
    if keyword_at(s, pos, Header::Title.name()) {
        Header::Title
    }     else if keyword_at(s, pos, Header::Genre.name()) {
        Header::Genre
    }     else if keyword_at(s, pos, Header::Artist.name()) {
        Header::Artist
    }     else if keyword_at(s, pos, Header::StageFile.name()) {
        Header::StageFile
    }     else if keyword_at(s, pos, Header::PathWav.name()) {
        Header::PathWav
    }     else if keyword_at(s, pos, Header::Bpm.name()) {
        Header::Bpm
    }     else if keyword_at(s, pos, Header::Player.name()) {
        Header::Player
    }     else if keyword_at(s, pos, Header::PlayLevel.name()) {
        Header::PlayLevel
    }     else if keyword_at(s, pos, Header::Rank.name()) {
        Header::Rank
    }     else if keyword_at(s, pos, Header::LnType.name()) {
        Header::LnType
    }     else if keyword_at(s, pos, Header::LnObj.name()) {
        Header::LnObj
    }     else if keyword_at(s, pos, Header::Wav.name()) {
        Header::Wav
    }     else if keyword_at(s, pos, Header::Bmp.name()) {
        Header::Bmp
    }     else if keyword_at(s, pos, Header::Bga.name()) {
        Header::Bga
    }     else if keyword_at(s, pos, Header::Stop.name()) {
        Header::Stop
    }     else if keyword_at(s, pos, Header::Stp.name()) {
        Header::Stp
    }     else if keyword_at(s, pos, Header::Random.name()) {
        Header::Random
    }     else if keyword_at(s, pos, Header::SetRandom.name()) {
        Header::SetRandom
    }     else if keyword_at(s, pos, Header::EndRandom.name()) {
        Header::EndRandom
    }     else if keyword_at(s, pos, Header::If.name()) {
        Header::If
    }     else if keyword_at(s, pos, Header::ElseIf.name()) {
        Header::ElseIf
    }     else if keyword_at(s, pos, Header::Else.name()) {
        Header::Else
    }     else if keyword_at(s, pos, Header::EndSw.name()) {
        Header::EndSw
    }     else if keyword_at(s, pos, Header::End.name()) {
        Header::End
    } else {
        Header::NoHeader
    }
}

/// A part of a line, from `from` up to `to`.
#[derive(Clone, Copy, Debug, PartialEq, Eq, Structural)]
pub struct Span {
    pub from: usize,
    pub to: usize,
}

/// What a line says.
#[derive(Clone, Copy, Debug, PartialEq, Eq)]
pub enum Directive {
    /// `#TITLE`, `#GENRE`, `#ARTIST`, `#STAGEFILE` or `#PATH_WAV` with its
    /// text.
    Text(Header, Span),
    /// `#PLAYER`, `#PLAYLEVEL`, `#RANK` or `#LNTYPE` with its number.
    Value(Header, i64),
    /// `#BPM` with the tempo at the start.
    InitBpm(Ratio),
    /// `#BPMxx` with the tempo that the key `xx` stands for.
    BpmEntry(Key, Ratio),
    /// `#LNOBJ` with the key that ends a long note.
    LnObj(Key),
    /// `#WAVxx` or `#BMPxx` with the path that the key `xx` stands for.
    Path(Header, Key, Span),
    /// `#BGAxx` with a command on images.
    Blit(BlitCmd),
    /// `#STOPxx` with the length, in 192nds of a measure, that the key `xx`
    /// stands for.
    StopEntry(Key, i64),
    /// `#STPmmm.fff` with a stop at measure `mmm` and `fff` thousandths,
    /// and its length in milliseconds, which is above zero.
    Stp(usize, u64, i64),
    /// `#RANDOM` with its number.
    Random(i64),
    /// `#SETRANDOM` with its number.
    SetRandom(i64),
    /// `#ENDRANDOM`.
    EndRandom,
    /// `#IF` with its number.
    If(i64),
    /// `#ELSEIF` with its number.
    ElseIf(i64),
    /// `#ELSE`.
    Else,
    /// `#END` or `#ENDIF`.
    End,
    /// The data of a channel in a measure.
    Data(usize, Key, Span),
    /// Nothing.
    Nothing,
}

/// `ws`: the position behind the blanks at `pos`, of which there is at
/// least one.
pub open spec fn blank_at(s: Seq<u8>, pos: int) -> Option<int> {
    if 0 <= pos < s.len() && is_space(s[pos]) {
        Some(skip_spaces(s, pos))
    } else {
        None
    }
}

/// The rest of the line from `pos` without the blanks that close it.
pub open spec fn rest_at(s: Seq<u8>, pos: int) -> Span {
    Span { from: pos as usize, to: trimmed_end(s, pos, s.len() as int) as usize }
}

/// Blanks, then text that may be empty.
pub open spec fn text_arg(s: Seq<u8>, pos: int) -> Option<Span> {
    match blank_at(s, pos) {
        Some(p) => Some(rest_at(s, p)),
        None => None,
    }
}

/// Blanks, then a number.
pub open spec fn value_arg(s: Seq<u8>, pos: int) -> Option<i64> {
    match blank_at(s, pos) {
        Some(p) => match int_at(s, p) {
            Some((v, _)) => Some(v),
            None => None,
        },
        None => None,
    }
}

/// Blanks, then a decimal number.
pub open spec fn decimal_arg(s: Seq<u8>, pos: int) -> Option<Ratio> {
    match blank_at(s, pos) {
        Some(p) => match decimal_at(s, p) {
            Some((v, _)) => Some(v),
            None => None,
        },
        None => None,
    }
}

/// Blanks, then a key.
pub open spec fn key_arg(s: Seq<u8>, pos: int) -> Option<Key> {
    match blank_at(s, pos) {
        Some(p) => match key_at(s, p) {
            Some((k, _)) => Some(k),
            None => None,
        },
        None => None,
    }
}

/// A key, blanks, then a decimal number.
pub open spec fn keyed_decimal(s: Seq<u8>, pos: int) -> Option<(Key, Ratio)> {
    match key_at(s, pos) {
        Some((k, p)) => match decimal_arg(s, p) {
            Some(v) => Some((k, v)),
            None => None,
        },
        None => None,
    }
}

/// A key, blanks, then a number.
pub open spec fn keyed_value(s: Seq<u8>, pos: int) -> Option<(Key, i64)> {
    match key_at(s, pos) {
        Some((k, p)) => match value_arg(s, p) {
            Some(v) => Some((k, v)),
            None => None,
        },
        None => None,
    }
}

/// A key, blanks, then text that is not empty.
pub open spec fn keyed_text(s: Seq<u8>, pos: int) -> Option<(Key, Span)> {
    match key_at(s, pos) {
        Some((k, p)) => match blank_at(s, p) {
            Some(q) => if q < s.len() {
                Some((k, rest_at(s, q)))
            } else {
                None
            },
            None => None,
        },
        None => None,
    }
}

/// Blanks and a number, and the position behind the number.
pub open spec fn spaced_int(s: Seq<u8>, pos: int) -> Option<(i64, int)> {
    match blank_at(s, pos) {
        Some(p) => int_at(s, p),
        None => None,
    }
}

/// Two keys and six numbers, with blanks between them.
pub open spec fn blit_arg(s: Seq<u8>, pos: int) -> Option<BlitCmd> {
    match key_at(s, pos) {
        Some((dst, p0)) => match blank_at(s, p0) {
            Some(p1) => match key_at(s, p1) {
                Some((src, p2)) => match spaced_int(s, p2) {
                    Some((x1, p3)) => match spaced_int(s, p3) {
                        Some((y1, p4)) => match spaced_int(s, p4) {
                            Some((x2, p5)) => match spaced_int(s, p5) {
                                Some((y2, p6)) => match spaced_int(s, p6) {
                                    Some((dx, p7)) => match spaced_int(s, p7) {
                                        Some((dy, _)) => Some(
                                            BlitCmd {
                                                dst: ImageRef(dst),
                                                src: ImageRef(src),
                                                x1,
                                                y1,
                                                x2,
                                                y2,
                                                dx,
                                                dy,
                                            },
                                        ),
                                        None => None,
                                    },
                                    None => None,
                                },
                                None => None,
                            },
                            None => None,
                        },
                        None => None,
                    },
                    None => None,
                },
                None => None,
            },
            None => None,
        },
        None => None,
    }
}

/// The number of a measure: three digits.
pub open spec fn measure_at(s: Seq<u8>, pos: int) -> Option<(usize, int)> {
    if 0 <= pos && pos + 3 <= s.len() && is_digit(s[pos]) && is_digit(s[pos + 1]) && is_digit(
        s[pos + 2],
    ) {
        Some(
            (
                ((s[pos] - '0' as u8) * 100 + (s[pos + 1] - '0' as u8) * 10 + (s[pos + 2] - '0' as u8)) as usize,
                pos + 3,
            ),
        )
    } else {
        None
    }
}

/// A measure, a point, thousandths, blanks and a length above zero.
pub open spec fn stp_arg(s: Seq<u8>, pos: int) -> Option<(usize, u64, i64)> {
    match measure_at(s, pos) {
        Some((measure, p0)) => if p0 < s.len() && s[p0] == '.' as u8 {
            match uint_at(s, p0 + 1) {
                Some((frac, p1)) => match value_arg(s, p1) {
                    Some(duration) => if duration > 0 {
                        Some((measure, frac, duration))
                    } else {
                        None
                    },
                    None => None,
                },
                None => None,
            }
        } else {
            None
        },
        None => None,
    }
}

/// A measure, a channel, a colon and, after blanks if there are any, data
/// that is not empty.
pub open spec fn data_arg(s: Seq<u8>, pos: int) -> Option<(usize, Key, Span)> {
    match measure_at(s, pos) {
        Some((measure, p0)) => match key_at(s, p0) {
            Some((chan, p1)) => if p1 < s.len() && s[p1] == ':' as u8 {
                let p2 = skip_spaces(s, p1 + 1);
                if p2 < s.len() {
                    Some((measure, chan, rest_at(s, p2)))
                } else {
                    None
                }
            } else {
                None
            },
            None => None,
        },
        None => None,
    }
}

/// What follows the keyword `header`, which ends at `pos`.
pub open spec fn directive_after(s: Seq<u8>, header: Header, pos: int) -> Directive {
    match header {
        Header::Title | Header::Genre | Header::Artist | Header::StageFile | Header::PathWav => {
            match text_arg(s, pos) {
                Some(span) => Directive::Text(header, span),
                None => Directive::Nothing,
            }
        },
        Header::Bpm => match keyed_decimal(s, pos) {
            Some((key, bpm)) => Directive::BpmEntry(key, bpm),
            None => match decimal_arg(s, pos) {
                Some(bpm) => Directive::InitBpm(bpm),
                None => Directive::Nothing,
            },
        },
        Header::Player | Header::PlayLevel | Header::Rank | Header::LnType => {
            match value_arg(s, pos) {
                Some(v) => Directive::Value(header, v),
                None => Directive::Nothing,
            }
        },
        Header::LnObj => match key_arg(s, pos) {
            Some(key) => Directive::LnObj(key),
            None => Directive::Nothing,
        },
        Header::Wav | Header::Bmp => match keyed_text(s, pos) {
            Some((key, span)) => Directive::Path(header, key, span),
            None => Directive::Nothing,
        },
        Header::Bga => match blit_arg(s, pos) {
            Some(bc) => Directive::Blit(bc),
            None => Directive::Nothing,
        },
        Header::Stop => match keyed_value(s, pos) {
            Some((key, duration)) => Directive::StopEntry(key, duration),
            None => Directive::Nothing,
        },
        Header::Stp => match stp_arg(s, pos) {
            Some((measure, frac, duration)) => Directive::Stp(measure, frac, duration),
            None => Directive::Nothing,
        },
        Header::Random => match value_arg(s, pos) {
            Some(v) => Directive::Random(v),
            None => Directive::Nothing,
        },
        Header::SetRandom => match value_arg(s, pos) {
            Some(v) => Directive::SetRandom(v),
            None => Directive::Nothing,
        },
        Header::EndRandom => Directive::EndRandom,
        Header::If => match value_arg(s, pos) {
            Some(v) => Directive::If(v),
            None => Directive::Nothing,
        },
        Header::ElseIf => match value_arg(s, pos) {
            Some(v) => Directive::ElseIf(v),
            None => Directive::Nothing,
        },
        Header::Else => Directive::Else,
        Header::EndSw => Directive::Nothing,
        Header::End => Directive::End,
        Header::NoHeader => match data_arg(s, pos) {
            Some((measure, chan, span)) => Directive::Data(measure, chan, span),
            None => Directive::Nothing,
        },
    }
}

/// What the line `s` says.
pub open spec fn directive_of(s: Seq<u8>) -> Directive {
    let start = skip_spaces(s, 0);
    if start < s.len() && s[start] == '#' as u8 {
        let header = header_at(s, start + 1);
        directive_after(s, header, start + 1 + header.name().len())
    } else {
        Directive::Nothing
    }
}

/// The upper-case form of a letter, and any other character as it is.
pub fn to_upper(c: u8) -> (r: u8)
    ensures
        r == upper(c),
{
    if 'a' as u8 <= c && c <= 'z' as u8 {
        c - 32
    } else {
        c
    }
}

/// Whether `word` stands in `s` at `pos`, in either case.
fn keyword_here(s: &[u8], pos: usize, word: &[u8]) -> (r: bool)
    requires
        pos <= s@.len(),
    ensures
        r == keyword_at(s@, pos as int, word@),
{
    if word.len() > s.len() - pos {
        return false;
    }
    let mut i: usize = 0;
    while i < word.len()
        invariant
            i <= word@.len(),
            pos + word@.len() <= s@.len() <= usize::MAX,
            forall|j: int| 0 <= j < i ==> upper(#[trigger] s@[pos + j]) == word@[j],
        decreases word@.len() - i,
    {
        if to_upper(s[pos + i]) != word[i] {
            return false;
        }
        i += 1;
    }
    true
}

/// Finds the keyword that stands in `s` at `pos`.
pub fn find_header(s: &[u8], pos: usize) -> (r: (Header, usize))
    requires
        pos <= s@.len(),
    ensures
        r.0 == header_at(s@, pos as int),
        r.1 == pos + r.0.name().len(),
        r.1 <= s@.len(),
{
    let _ = s.len();
    let word = ['T' as u8, 'I' as u8, 'T' as u8, 'L' as u8, 'E' as u8];
    assert(word@ =~= Header::Title.name());
    if keyword_here(s, pos, word.as_slice()) {
        assert(word@.len() == 5);
        return (Header::Title, pos + 5);
    }
    let word = ['G' as u8, 'E' as u8, 'N' as u8, 'R' as u8, 'E' as u8];
    assert(word@ =~= Header::Genre.name());
    if keyword_here(s, pos, word.as_slice()) {
        assert(word@.len() == 5);
        return (Header::Genre, pos + 5);
    }
    let word = ['A' as u8, 'R' as u8, 'T' as u8, 'I' as u8, 'S' as u8, 'T' as u8];
    assert(word@ =~= Header::Artist.name());
    if keyword_here(s, pos, word.as_slice()) {
        assert(word@.len() == 6);
        return (Header::Artist, pos + 6);
    }
    let word = ['S' as u8, 'T' as u8, 'A' as u8, 'G' as u8, 'E' as u8, 'F' as u8, 'I' as u8, 'L' as u8, 'E' as u8];
    assert(word@ =~= Header::StageFile.name());
    if keyword_here(s, pos, word.as_slice()) {
        assert(word@.len() == 9);
        return (Header::StageFile, pos + 9);
    }
    let word = ['P' as u8, 'A' as u8, 'T' as u8, 'H' as u8, '_' as u8, 'W' as u8, 'A' as u8, 'V' as u8];
    assert(word@ =~= Header::PathWav.name());
    if keyword_here(s, pos, word.as_slice()) {
        assert(word@.len() == 8);
        return (Header::PathWav, pos + 8);
    }
    let word = ['B' as u8, 'P' as u8, 'M' as u8];
    assert(word@ =~= Header::Bpm.name());
    if keyword_here(s, pos, word.as_slice()) {
        assert(word@.len() == 3);
        return (Header::Bpm, pos + 3);
    }
    let word = ['P' as u8, 'L' as u8, 'A' as u8, 'Y' as u8, 'E' as u8, 'R' as u8];
    assert(word@ =~= Header::Player.name());
    if keyword_here(s, pos, word.as_slice()) {
        assert(word@.len() == 6);
        return (Header::Player, pos + 6);
    }
    let word = ['P' as u8, 'L' as u8, 'A' as u8, 'Y' as u8, 'L' as u8, 'E' as u8, 'V' as u8, 'E' as u8, 'L' as u8];
    assert(word@ =~= Header::PlayLevel.name());
    if keyword_here(s, pos, word.as_slice()) {
        assert(word@.len() == 9);
        return (Header::PlayLevel, pos + 9);
    }
    let word = ['R' as u8, 'A' as u8, 'N' as u8, 'K' as u8];
    assert(word@ =~= Header::Rank.name());
    if keyword_here(s, pos, word.as_slice()) {
        assert(word@.len() == 4);
        return (Header::Rank, pos + 4);
    }
    let word = ['L' as u8, 'N' as u8, 'T' as u8, 'Y' as u8, 'P' as u8, 'E' as u8];
    assert(word@ =~= Header::LnType.name());
    if keyword_here(s, pos, word.as_slice()) {
        assert(word@.len() == 6);
        return (Header::LnType, pos + 6);
    }
    let word = ['L' as u8, 'N' as u8, 'O' as u8, 'B' as u8, 'J' as u8];
    assert(word@ =~= Header::LnObj.name());
    if keyword_here(s, pos, word.as_slice()) {
        assert(word@.len() == 5);
        return (Header::LnObj, pos + 5);
    }
    let word = ['W' as u8, 'A' as u8, 'V' as u8];
    assert(word@ =~= Header::Wav.name());
    if keyword_here(s, pos, word.as_slice()) {
        assert(word@.len() == 3);
        return (Header::Wav, pos + 3);
    }
    let word = ['B' as u8, 'M' as u8, 'P' as u8];
    assert(word@ =~= Header::Bmp.name());
    if keyword_here(s, pos, word.as_slice()) {
        assert(word@.len() == 3);
        return (Header::Bmp, pos + 3);
    }
    let word = ['B' as u8, 'G' as u8, 'A' as u8];
    assert(word@ =~= Header::Bga.name());
    if keyword_here(s, pos, word.as_slice()) {
        assert(word@.len() == 3);
        return (Header::Bga, pos + 3);
    }
    let word = ['S' as u8, 'T' as u8, 'O' as u8, 'P' as u8];
    assert(word@ =~= Header::Stop.name());
    if keyword_here(s, pos, word.as_slice()) {
        assert(word@.len() == 4);
        return (Header::Stop, pos + 4);
    }
    let word = ['S' as u8, 'T' as u8, 'P' as u8];
    assert(word@ =~= Header::Stp.name());
    if keyword_here(s, pos, word.as_slice()) {
        assert(word@.len() == 3);
        return (Header::Stp, pos + 3);
    }
    let word = ['R' as u8, 'A' as u8, 'N' as u8, 'D' as u8, 'O' as u8, 'M' as u8];
    assert(word@ =~= Header::Random.name());
    if keyword_here(s, pos, word.as_slice()) {
        assert(word@.len() == 6);
        return (Header::Random, pos + 6);
    }
    let word = ['S' as u8, 'E' as u8, 'T' as u8, 'R' as u8, 'A' as u8, 'N' as u8, 'D' as u8, 'O' as u8, 'M' as u8];
    assert(word@ =~= Header::SetRandom.name());
    if keyword_here(s, pos, word.as_slice()) {
        assert(word@.len() == 9);
        return (Header::SetRandom, pos + 9);
    }
    let word = ['E' as u8, 'N' as u8, 'D' as u8, 'R' as u8, 'A' as u8, 'N' as u8, 'D' as u8, 'O' as u8, 'M' as u8];
    assert(word@ =~= Header::EndRandom.name());
    if keyword_here(s, pos, word.as_slice()) {
        assert(word@.len() == 9);
        return (Header::EndRandom, pos + 9);
    }
    let word = ['I' as u8, 'F' as u8];
    assert(word@ =~= Header::If.name());
    if keyword_here(s, pos, word.as_slice()) {
        assert(word@.len() == 2);
        return (Header::If, pos + 2);
    }
    let word = ['E' as u8, 'L' as u8, 'S' as u8, 'E' as u8, 'I' as u8, 'F' as u8];
    assert(word@ =~= Header::ElseIf.name());
    if keyword_here(s, pos, word.as_slice()) {
        assert(word@.len() == 6);
        return (Header::ElseIf, pos + 6);
    }
    let word = ['E' as u8, 'L' as u8, 'S' as u8, 'E' as u8];
    assert(word@ =~= Header::Else.name());
    if keyword_here(s, pos, word.as_slice()) {
        assert(word@.len() == 4);
        return (Header::Else, pos + 4);
    }
    let word = ['E' as u8, 'N' as u8, 'D' as u8, 'S' as u8, 'W' as u8];
    assert(word@ =~= Header::EndSw.name());
    if keyword_here(s, pos, word.as_slice()) {
        assert(word@.len() == 5);
        return (Header::EndSw, pos + 5);
    }
    let word = ['E' as u8, 'N' as u8, 'D' as u8];
    assert(word@ =~= Header::End.name());
    if keyword_here(s, pos, word.as_slice()) {
        assert(word@.len() == 3);
        return (Header::End, pos + 3);
    }
    (Header::NoHeader, pos)
}

/// `ws`: skips blanks, of which there must be one.
fn read_blank(s: &[u8], pos: usize) -> (r: Option<usize>)
    requires
        pos <= s@.len(),
    ensures
        r is Some <==> blank_at(s@, pos as int) is Some,
        r matches Some(end) ==> blank_at(s@, pos as int) == Some(end as int) && pos < end
            <= s@.len(),
{
    if pos < s.len() && crate::scan::is_space_byte(s[pos]) {
        proof {
            crate::scan::lemma_skip_spaces_bounds(s@, pos + 1);
        }
        Some(trim_left(s, pos))
    } else {
        None
    }
}

/// The rest of the line from `pos` without the blanks that close it.
fn read_rest(s: &[u8], pos: usize) -> (r: Span)
    requires
        pos <= s@.len(),
    ensures
        r == rest_at(s@, pos as int),
        pos == r.from <= r.to <= s@.len(),
        r.to == trimmed_end(s@, pos as int, s@.len() as int),
{
    Span { from: pos, to: trim_right(s, pos) }
}

fn read_text_arg(s: &[u8], pos: usize) -> (r: Option<Span>)
    requires
        pos <= s@.len(),
    ensures
        r == text_arg(s@, pos as int),
        r matches Some(span) ==> span.from <= span.to <= s@.len(),
{
    match read_blank(s, pos) {
        Some(p) => Some(read_rest(s, p)),
        None => None,
    }
}

fn read_spaced_int(s: &[u8], pos: usize) -> (r: Option<(i64, usize)>)
    requires
        pos <= s@.len(),
    ensures
        r is Some <==> spaced_int(s@, pos as int) is Some,
        r matches Some((v, end)) ==> spaced_int(s@, pos as int) == Some((v, end as int)) && end
            <= s@.len(),
{
    match read_blank(s, pos) {
        Some(p) => read_int(s, p),
        None => None,
    }
}

fn read_value_arg(s: &[u8], pos: usize) -> (r: Option<i64>)
    requires
        pos <= s@.len(),
    ensures
        r == value_arg(s@, pos as int),
{
    match read_blank(s, pos) {
        Some(p) => match read_int(s, p) {
            Some((v, _)) => Some(v),
            None => None,
        },
        None => None,
    }
}

fn read_decimal_arg(s: &[u8], pos: usize) -> (r: Option<Ratio>)
    requires
        pos <= s@.len(),
    ensures
        r == decimal_arg(s@, pos as int),
{
    match read_blank(s, pos) {
        Some(p) => match read_decimal(s, p) {
            Some((v, _)) => Some(v),
            None => None,
        },
        None => None,
    }
}

fn read_key_arg(s: &[u8], pos: usize) -> (r: Option<Key>)
    requires
        pos <= s@.len(),
    ensures
        r == key_arg(s@, pos as int),
{
    match read_blank(s, pos) {
        Some(p) => match Key::from_str_prefix(s, p) {
            Some((k, _)) => Some(k),
            None => None,
        },
        None => None,
    }
}

fn read_keyed_decimal(s: &[u8], pos: usize) -> (r: Option<(Key, Ratio)>)
    requires
        pos <= s@.len(),
    ensures
        r == keyed_decimal(s@, pos as int),
{
    match Key::from_str_prefix(s, pos) {
        Some((k, p)) => match read_decimal_arg(s, p) {
            Some(v) => Some((k, v)),
            None => None,
        },
        None => None,
    }
}

fn read_keyed_value(s: &[u8], pos: usize) -> (r: Option<(Key, i64)>)
    requires
        pos <= s@.len(),
    ensures
        r == keyed_value(s@, pos as int),
{
    match Key::from_str_prefix(s, pos) {
        Some((k, p)) => match read_value_arg(s, p) {
            Some(v) => Some((k, v)),
            None => None,
        },
        None => None,
    }
}

fn read_keyed_text(s: &[u8], pos: usize) -> (r: Option<(Key, Span)>)
    requires
        pos <= s@.len(),
    ensures
        r == keyed_text(s@, pos as int),
        r matches Some((_, span)) ==> span.from < span.to <= s@.len(),
{
    match Key::from_str_prefix(s, pos) {
        Some((k, p)) => match read_blank(s, p) {
            Some(q) => if q < s.len() {
                proof {
                    crate::scan::lemma_skip_spaces_bounds(s@, p as int);
                    lemma_trimmed_keeps(s@, q as int, s@.len() as int);
                }
                Some((k, read_rest(s, q)))
            } else {
                None
            },
            None => None,
        },
        None => None,
    }
}

fn read_blit_arg(s: &[u8], pos: usize) -> (r: Option<BlitCmd>)
    requires
        pos <= s@.len(),
    ensures
        r == blit_arg(s@, pos as int),
{
    let (dst, p0) = match Key::from_str_prefix(s, pos) {
        Some(x) => x,
        None => {
            return None;
        },
    };
    let p1 = match read_blank(s, p0) {
        Some(x) => x,
        None => {
            return None;
        },
    };
    let (src, p2) = match Key::from_str_prefix(s, p1) {
        Some(x) => x,
        None => {
            return None;
        },
    };
    let (x1, p3) = match read_spaced_int(s, p2) {
        Some(x) => x,
        None => {
            return None;
        },
    };
    let (y1, p4) = match read_spaced_int(s, p3) {
        Some(x) => x,
        None => {
            return None;
        },
    };
    let (x2, p5) = match read_spaced_int(s, p4) {
        Some(x) => x,
        None => {
            return None;
        },
    };
    let (y2, p6) = match read_spaced_int(s, p5) {
        Some(x) => x,
        None => {
            return None;
        },
    };
    let (dx, p7) = match read_spaced_int(s, p6) {
        Some(x) => x,
        None => {
            return None;
        },
    };
    let (dy, _) = match read_spaced_int(s, p7) {
        Some(x) => x,
        None => {
            return None;
        },
    };
    Some(BlitCmd { dst: ImageRef(dst), src: ImageRef(src), x1, y1, x2, y2, dx, dy })
}

/// Reads the number of a measure: three digits.
fn read_measure(s: &[u8], pos: usize) -> (r: Option<(usize, usize)>)
    requires
        pos <= s@.len(),
    ensures
        r is Some <==> measure_at(s@, pos as int) is Some,
        r matches Some((m, end)) ==> measure_at(s@, pos as int) == Some((m, end as int)) && end
            == pos + 3 && end <= s@.len() && m < 1000,
{
    if s.len() - pos < 3 {
        return None;
    }
    let a = s[pos];
    let b = s[pos + 1];
    let c = s[pos + 2];
    if crate::scan::is_digit_byte(a) && crate::scan::is_digit_byte(b) && crate::scan::is_digit_byte(c) {
        let m = ((a - '0' as u8) as usize) * 100 + ((b - '0' as u8) as usize) * 10 + ((c - '0' as u8) as usize);
        Some((m, pos + 3))
    } else {
        None
    }
}

fn read_stp_arg(s: &[u8], pos: usize) -> (r: Option<(usize, u64, i64)>)
    requires
        pos <= s@.len(),
    ensures
        r == stp_arg(s@, pos as int),
        r matches Some((m, _, d)) ==> m < 1000 && d > 0,
{
    let (measure, p0) = match read_measure(s, pos) {
        Some(x) => x,
        None => {
            return None;
        },
    };
    if !(p0 < s.len() && s[p0] == '.' as u8) {
        return None;
    }
    let (frac, p1) = match read_uint(s, p0 + 1) {
        Some(x) => x,
        None => {
            return None;
        },
    };
    match read_value_arg(s, p1) {
        Some(duration) => if duration > 0 {
            Some((measure, frac, duration))
        } else {
            None
        },
        None => None,
    }
}

fn read_data_arg(s: &[u8], pos: usize) -> (r: Option<(usize, Key, Span)>)
    requires
        pos <= s@.len(),
    ensures
        r == data_arg(s@, pos as int),
        r matches Some((m, chan, span)) ==> m < 1000 && 0 <= chan.0 < crate::key::MAXKEY
            && span.from < span.to <= s@.len(),
{
    let (measure, p0) = match read_measure(s, pos) {
        Some(x) => x,
        None => {
            return None;
        },
    };
    let (chan, p1) = match Key::from_str_prefix(s, p0) {
        Some(x) => x,
        None => {
            return None;
        },
    };
    if !(p1 < s.len() && s[p1] == ':' as u8) {
        return None;
    }
    let p2 = trim_left(s, p1 + 1);
    if p2 < s.len() {
        proof {
            crate::key::lemma_key_at_valid(s@, p0 as int);
            crate::scan::lemma_skip_spaces_bounds(s@, p1 + 1);
            lemma_trimmed_keeps(s@, p2 as int, s@.len() as int);
        }
        Some((measure, chan, read_rest(s, p2)))
    } else {
        None
    }
}

/// Reads what follows the keyword `header`, which ends at `pos`.
fn parse_after(s: &[u8], header: Header, pos: usize) -> (r: Directive)
    requires
        pos <= s@.len(),
    ensures
        r == directive_after(s@, header, pos as int),
        directive_fits(r, s@.len()),
{
    match header {
        Header::Title | Header::Genre | Header::Artist | Header::StageFile | Header::PathWav => {
            match read_text_arg(s, pos) {
                Some(span) => Directive::Text(header, span),
                None => Directive::Nothing,
            }
        },
        Header::Bpm => match read_keyed_decimal(s, pos) {
            Some((key, bpm)) => {
                proof {
                    crate::key::lemma_key_at_valid(s@, pos as int);
                }
                Directive::BpmEntry(key, bpm)
            },
            None => match read_decimal_arg(s, pos) {
                Some(bpm) => Directive::InitBpm(bpm),
                None => Directive::Nothing,
            },
        },
        Header::Player | Header::PlayLevel | Header::Rank | Header::LnType => {
            match read_value_arg(s, pos) {
                Some(v) => Directive::Value(header, v),
                None => Directive::Nothing,
            }
        },
        Header::LnObj => match read_key_arg(s, pos) {
            Some(key) => Directive::LnObj(key),
            None => Directive::Nothing,
        },
        Header::Wav | Header::Bmp => match read_keyed_text(s, pos) {
            Some((key, span)) => {
                proof {
                    crate::key::lemma_key_at_valid(s@, pos as int);
                }
                Directive::Path(header, key, span)
            },
            None => Directive::Nothing,
        },
        Header::Bga => match read_blit_arg(s, pos) {
            Some(bc) => Directive::Blit(bc),
            None => Directive::Nothing,
        },
        Header::Stop => match read_keyed_value(s, pos) {
            Some((key, duration)) => {
                proof {
                    crate::key::lemma_key_at_valid(s@, pos as int);
                }
                Directive::StopEntry(key, duration)
            },
            None => Directive::Nothing,
        },
        Header::Stp => match read_stp_arg(s, pos) {
            Some((measure, frac, duration)) => Directive::Stp(measure, frac, duration),
            None => Directive::Nothing,
        },
        Header::Random => match read_value_arg(s, pos) {
            Some(v) => Directive::Random(v),
            None => Directive::Nothing,
        },
        Header::SetRandom => match read_value_arg(s, pos) {
            Some(v) => Directive::SetRandom(v),
            None => Directive::Nothing,
        },
        Header::EndRandom => Directive::EndRandom,
        Header::If => match read_value_arg(s, pos) {
            Some(v) => Directive::If(v),
            None => Directive::Nothing,
        },
        Header::ElseIf => match read_value_arg(s, pos) {
            Some(v) => Directive::ElseIf(v),
            None => Directive::Nothing,
        },
        Header::Else => Directive::Else,
        Header::EndSw => Directive::Nothing,
        Header::End => Directive::End,
        Header::NoHeader => match read_data_arg(s, pos) {
            Some((measure, chan, span)) => Directive::Data(measure, chan, span),
            None => Directive::Nothing,
        },
    }
}

/// Whether the parts of a line that a directive names lie in a line of
/// `len` characters, its keys are valid and its measure has three digits.
pub open spec fn directive_fits(d: Directive, len: nat) -> bool {
    match d {
        Directive::Text(_, span) => span.from <= span.to <= len,
        Directive::Path(_, key, span) => span.from < span.to <= len && 0 <= key.0
            < crate::key::MAXKEY,
        Directive::Data(measure, chan, span) => span.from < span.to <= len && measure < 1000
            && 0 <= chan.0 < crate::key::MAXKEY,
        Directive::BpmEntry(key, _) => 0 <= key.0 < crate::key::MAXKEY,
        Directive::StopEntry(key, _) => 0 <= key.0 < crate::key::MAXKEY,
        Directive::Stp(measure, _, duration) => measure < 1000 && duration > 0,
        _ => true,
    }
}

/// Reads one line.
pub fn parse_directive(s: &[u8]) -> (r: Directive)
    ensures
        r == directive_of(s@),
        directive_fits(r, s@.len()),
{
    let start = trim_left(s, 0);
    if start < s.len() && s[start] == '#' as u8 {
        let (header, pos) = find_header(s, start + 1);
        parse_after(s, header, pos)
    } else {
        Directive::Nothing
    }
}

/// Trimming does not take a character that is no blank.
pub proof fn lemma_trimmed_keeps(s: Seq<u8>, pos: int, end: int)
    requires
        0 <= pos < end <= s.len(),
        !is_space(s[pos]),
    ensures
        trimmed_end(s, pos, end) > pos,
    decreases end - pos,
{
    if is_space(s[end - 1]) {
        lemma_trimmed_keeps(s, pos, end - 1);
    }
}

} // verus!
