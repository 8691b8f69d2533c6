//! The bitmap font: glyphs of 8 by 16 pixels that can be zoomed by a whole
//! factor, with slanted edges kept smooth.
//!
//! A glyph has 16 rows of 8 pixels. For each pixel the font holds four
//! bits, one for each of the triangles into which its diagonals cut it.
//! A zoomed pixel is a square of pixels, of which those in the triangles
//! that are set are drawn. The glyphs are kept packed and are unpacked
//! once.

use vstd::prelude::*;

verus! {

/// How a string is placed at its coordinates.
#[derive(Clone, Copy, Debug, PartialEq, Eq)]
pub enum Alignment {
    /// The coordinates name the upper left corner.
    LeftAligned,
    /// The coordinates name the middle of the upper edge.
    Centered,
    /// The coordinates name the upper right corner.
    RightAligned,
}

/// The number of glyphs of the font.
pub const NGLYPHS: usize = 96;

/// The number of rows of a glyph.
pub const NROWS: usize = 16;

/// The number of columns of a glyph.
pub const NCOLS: usize = 8;

/// The largest zoom: a zoomed row has to fit into 32 bits.
pub const MAXZOOM: usize = 4;

/// The code word with the number `n`: the sum of the first `n` of the
/// differences `dwords`.
pub open spec fn word_of(dwords: Seq<u16>, n: int) -> int
    decreases n,
{
    if n <= 0 {
        0
    } else {
        word_of(dwords, n - 1) + dwords[n - 1]
    }
}

/// The words with the last `n` words copied to their end, one by one,
/// starting with the word at `start`. A word that was copied may be
/// copied again.
pub open spec fn copied(glyphs: Seq<u16>, start: int, n: int) -> Seq<u16>
    decreases n,
{
    if n <= 0 {
        glyphs
    } else {
        let before = copied(glyphs, start, n - 1);
        before.push(before[start + n - 1])
    }
}

/// The words `glyphs` followed by what the indices from `i` on unpack to.
/// A byte from 33 to 97 stands for the code word 0 to 64. A byte from 98
/// to 126 stands for a copy of 3 to 31 words, where the byte behind it,
/// less 32, says how many words back the copy starts. Anything else
/// spoils the whole.
pub open spec fn unpacked_from(dwords: Seq<u16>, indices: Seq<u8>, i: int, glyphs: Seq<u16>) -> Option<
    Seq<u16>,
>
    decreases indices.len() - i,
{
    if i < 0 || i >= indices.len() {
        Some(glyphs)
    } else if 33 <= indices[i] <= 97 {
        if indices[i] - 33 <= dwords.len() {
            unpacked_from(dwords, indices, i + 1, glyphs.push(word_of(dwords, indices[i] - 33) as u16))
        } else {
            None
        }
    } else if 98 <= indices[i] <= 126 && i + 1 < indices.len() {
        let distance = indices[i + 1] - 32;
        if 0 < distance <= glyphs.len() {
            unpacked_from(
                dwords,
                indices,
                i + 2,
                copied(glyphs, glyphs.len() - distance, indices[i] - 95),
            )
        } else {
            None
        }
    } else {
        None
    }
}

/// What the indices unpack to, if every code word fits into 16 bits.
pub open spec fn unpacked(dwords: Seq<u16>, indices: Seq<u8>) -> Option<Seq<u16>> {
    if word_of(dwords, dwords.len() as int) <= u16::MAX {
        unpacked_from(dwords, indices, 0, Seq::empty())
    } else {
        None
    }
}

/// The code words grow.
pub proof fn lemma_words_grow(dwords: Seq<u16>, a: int, b: int)
    requires
        0 <= a <= b <= dwords.len(),
    ensures
        0 <= word_of(dwords, a) <= word_of(dwords, b),
    decreases b,
{
    if a < b {
        lemma_words_grow(dwords, a, b - 1);
    } else if a > 0 {
        lemma_words_grow(dwords, a - 1, a - 1);
    }
}

/// The code words, if each fits into 16 bits.
fn code_words(dwords: &[u16]) -> (r: Option<Vec<u16>>)
    ensures
        r is Some <==> word_of(dwords@, dwords@.len() as int) <= u16::MAX,
        r matches Some(words) ==> words@.len() == dwords@.len() + 1 && forall|k: int|
            0 <= k <= dwords@.len() ==> #[trigger] words@[k] == word_of(dwords@, k),
{
    let mut words: Vec<u16> = Vec::new();
    words.push(0);
    let mut last: u16 = 0;
    let mut n: usize = 0;
    while n < dwords.len()
        invariant
            n <= dwords@.len(),
            words@.len() == n + 1,
            last == word_of(dwords@, n as int),
            forall|k: int| 0 <= k <= n ==> #[trigger] words@[k] == word_of(dwords@, k),
        decreases dwords@.len() - n,
    {
        if dwords[n] > u16::MAX - last {
            proof {
                lemma_words_grow(dwords@, n + 1, dwords@.len() as int);
            }
            return None;
        }
        last = last + dwords[n];
        words.push(last);
        n += 1;
    }
    Some(words)
}

/// Unpacks the glyphs of a font.
pub fn decompress(dwords: &[u16], indices: &[u8]) -> (r: Option<Vec<u16>>)
    ensures
        r is Some <==> unpacked(dwords@, indices@) is Some,
        r matches Some(glyphs) ==> unpacked(dwords@, indices@) == Some(glyphs@),
{
    let words = match code_words(dwords) {
        Some(words) => words,
        None => {
            return None;
        },
    };
    let mut glyphs: Vec<u16> = Vec::new();
    let mut i: usize = 0;
    while i < indices.len()
        invariant
            i <= indices@.len(),
            words@.len() == dwords@.len() + 1,
            forall|k: int| 0 <= k <= dwords@.len() ==> #[trigger] words@[k] == word_of(dwords@, k),
            unpacked(dwords@, indices@) == unpacked_from(dwords@, indices@, i as int, glyphs@),
        decreases indices@.len() - i,
    {
        let code = indices[i];
        if 33 <= code && code <= 97 {
            let k = (code - 33) as usize;
            if k >= words.len() {
                return None;
            }
            glyphs.push(words[k]);
            i += 1;
        } else if 98 <= code && code <= 126 && i + 1 < indices.len() {
            let length = (code - 95) as usize;
            let back = indices[i + 1];
            if back <= 32 || (back - 32) as usize > glyphs.len() {
                return None;
            }
            let distance = (back - 32) as usize;
            let ghost start = glyphs@.len() - distance;
            let ghost before = glyphs@;
            let mut n: usize = 0;
            while n < length
                invariant
                    n <= length <= 31,
                    0 < distance <= before.len(),
                    start == before.len() - distance,
                    glyphs@ == copied(before, start, n as int),
                    glyphs@.len() == before.len() + n,
                decreases length - n,
            {
                let v = glyphs[glyphs.len() - distance];
                glyphs.push(v);
                n += 1;
            }
            i += 2;
        } else {
            return None;
        }
    }
    Some(glyphs)
}

/// The four bits of the pixel in the row `row` and the column `col` of
/// the glyph `g`. A row takes two words, of which the first holds the
/// upper half; the first column stands in the lowest four bits. The bit
/// 1 is for the lower right triangle of the pixel, 2 for the lower left
/// one, 4 for the upper right one, and 8 for the upper left one.
pub open spec fn corners_at(glyphs: Seq<u16>, g: int, row: int, col: int) -> u32 {
    let i = 2 * (g * NROWS + row);
    ((((glyphs[i] as u32) << 16) | (glyphs[i + 1] as u32)) >> ((4 * col) as u32)) & 15
}

/// The triangles that take part in the place `(r, c)` of a zoomed pixel,
/// as bits: the places right of the one diagonal and left of the other
/// belong to two triangles each, and those on a diagonal to one or none.
pub open spec fn triangles(r: int, c: int, zoom: int) -> u32 {
    (if r + c >= zoom {
        1u32
    } else {
        0u32
    }) | (if r > c {
        2u32
    } else {
        0u32
    }) | (if r < c {
        4u32
    } else {
        0u32
    }) | (if r + c < zoom - 1 {
        8u32
    } else {
        0u32
    })
}

/// Whether the pixel in the row `y` and the column `x` of the zoomed
/// glyph is drawn: it is if one of its triangles is set in the pixel of
/// the glyph that it comes from, or if all four are. (With an odd zoom the
/// four triangles leave the place in the middle out.)
pub open spec fn is_lit(glyphs: Seq<u16>, zoom: int, g: int, y: int, x: int) -> bool {
    let v = corners_at(glyphs, g, y / zoom, x / zoom);
    v & triangles(y % zoom, x % zoom, zoom) != 0 || v == 15
}

/// Whether the bit for the column `x` is set in the row.
pub open spec fn bit_at(row: u32, x: int) -> bool {
    (row >> (x as u32)) & 1 == 1
}

/// Whether `row` is the row `y` of the zoomed glyph `g`: it has a bit set
/// for each pixel that is drawn, and no other.
pub open spec fn is_zoomed_row(glyphs: Seq<u16>, zoom: int, g: int, y: int, row: u32) -> bool {
    forall|x: int|
        0 <= x < 32 ==> #[trigger] bit_at(row, x) == (x < NCOLS * zoom && is_lit(glyphs, zoom, g, y, x))
}

/// Whether `rows` are the rows of the zoomed glyph `g`.
pub open spec fn is_zoomed_glyph(glyphs: Seq<u16>, zoom: int, g: int, rows: Seq<u32>) -> bool {
    rows.len() == NROWS * zoom && forall|y: int|
        0 <= y < rows.len() ==> is_zoomed_row(glyphs, zoom, g, y, #[trigger] rows[y])
}

/// Whether `pixels` are the glyphs of the font at the zoom.
pub open spec fn is_zoomed(glyphs: Seq<u16>, zoom: int, pixels: Seq<Vec<u32>>) -> bool {
    pixels.len() == NGLYPHS && forall|g: int|
        0 <= g < pixels.len() ==> is_zoomed_glyph(glyphs, zoom, g, (#[trigger] pixels[g])@)
}

/// Setting one bit of a row leaves the others as they are.
proof fn lemma_set_bit(row: u32, x: u32, y: u32)
    requires
        x < 32,
        y < 32,
    ensures
        ((row | (1u32 << x)) >> y) & 1 == if x == y {
            1u32
        } else {
            (row >> y) & 1
        },
{
    assert(((row | (1u32 << x)) >> y) & 1 == if x == y {
        1u32
    } else {
        (row >> y) & 1
    }) by (bit_vector)
        requires
            x < 32,
            y < 32,
    ;
}

/// An empty row has no bit set.
proof fn lemma_no_bit(y: u32)
    requires
        y < 32,
    ensures
        (0u32 >> y) & 1 == 0u32,
{
    assert((0u32 >> y) & 1 == 0u32) by (bit_vector)
        requires
            y < 32,
    ;
}

/// The triangles that take part in a place of a zoomed pixel.
fn triangles_at(r: usize, c: usize, zoom: usize) -> (m: u32)
    requires
        r < zoom <= MAXZOOM,
        c < zoom,
    ensures
        m == triangles(r as int, c as int, zoom as int),
{
    let lower_right: u32 = if r + c >= zoom {
        1
    } else {
        0
    };
    let lower_left: u32 = if r > c {
        2
    } else {
        0
    };
    let upper_right: u32 = if r < c {
        4
    } else {
        0
    };
    let upper_left: u32 = if r + c + 1 < zoom {
        8
    } else {
        0
    };
    lower_right | lower_left | upper_right | upper_left
}

/// The four bits of a pixel of a glyph.
fn corners(glyphs: &Vec<u16>, g: usize, row: usize, col: usize) -> (v: u32)
    requires
        glyphs@.len() == NGLYPHS * NROWS * 2,
        g < NGLYPHS,
        row < NROWS,
        col < NCOLS,
    ensures
        v == corners_at(glyphs@, g as int, row as int, col as int),
{
    let i = 2 * (g * NROWS + row);
    let data: u32 = ((glyphs[i] as u32) << 16) | (glyphs[i + 1] as u32);
    (data >> ((4 * col) as u32)) & 15
}

/// Makes a row of a zoomed glyph.
fn zoomed_row(glyphs: &Vec<u16>, zoom: usize, g: usize, y: usize) -> (row: u32)
    requires
        glyphs@.len() == NGLYPHS * NROWS * 2,
        1 <= zoom <= MAXZOOM,
        g < NGLYPHS,
        y < NROWS * zoom,
    ensures
        is_zoomed_row(glyphs@, zoom as int, g as int, y as int, row),
{
    let mut row: u32 = 0;
    let mut x: usize = 0;
    proof {
        assert forall|xx: int| 0 <= xx < 32 implies !#[trigger] bit_at(row, xx) by {
            lemma_no_bit(xx as u32);
        }
    }
    while x < NCOLS * zoom
        invariant
            glyphs@.len() == NGLYPHS * NROWS * 2,
            1 <= zoom <= MAXZOOM,
            g < NGLYPHS,
            y < NROWS * zoom,
            x <= NCOLS * zoom,
            forall|xx: int|
                0 <= xx < 32 ==> #[trigger] bit_at(row, xx) == (xx < x && is_lit(
                    glyphs@,
                    zoom as int,
                    g as int,
                    y as int,
                    xx,
                )),
        decreases NCOLS * zoom - x,
    {
        assert(y / zoom < NROWS && x / zoom < NCOLS) by (nonlinear_arith)
            requires
                1 <= zoom,
                y < NROWS * zoom,
                x < NCOLS * zoom,
        ;
        let v = corners(glyphs, g, y / zoom, x / zoom);
        let mask = triangles_at(y % zoom, x % zoom, zoom);
        let ghost before = row;
        if (v & mask) != 0 || v == 15 {
            row = row | (1u32 << (x as u32));
            proof {
                assert forall|xx: int| 0 <= xx < 32 implies #[trigger] bit_at(row, xx) == (xx < x + 1
                    && is_lit(glyphs@, zoom as int, g as int, y as int, xx)) by {
                    lemma_set_bit(before, x as u32, xx as u32);
                    assert(bit_at(before, xx) == (xx < x && is_lit(
                        glyphs@,
                        zoom as int,
                        g as int,
                        y as int,
                        xx,
                    )));
                }
            }
        }
        x += 1;
    }
    row
}

/// Makes the rows of a zoomed glyph.
fn zoomed_glyph(glyphs: &Vec<u16>, zoom: usize, g: usize) -> (rows: Vec<u32>)
    requires
        glyphs@.len() == NGLYPHS * NROWS * 2,
        1 <= zoom <= MAXZOOM,
        g < NGLYPHS,
    ensures
        is_zoomed_glyph(glyphs@, zoom as int, g as int, rows@),
{
    let mut rows: Vec<u32> = Vec::new();
    let mut y: usize = 0;
    while y < NROWS * zoom
        invariant
            glyphs@.len() == NGLYPHS * NROWS * 2,
            1 <= zoom <= MAXZOOM,
            g < NGLYPHS,
            y <= NROWS * zoom,
            rows@.len() == y,
            forall|yy: int|
                0 <= yy < y ==> is_zoomed_row(glyphs@, zoom as int, g as int, yy, #[trigger] rows@[yy]),
        decreases NROWS * zoom - y,
    {
        rows.push(zoomed_row(glyphs, zoom, g, y));
        y += 1;
    }
    rows
}

/// Makes the glyphs of a zoom.
fn zoomed_glyphs(glyphs: &Vec<u16>, zoom: usize) -> (pixels: Vec<Vec<u32>>)
    requires
        glyphs@.len() == NGLYPHS * NROWS * 2,
        1 <= zoom <= MAXZOOM,
    ensures
        is_zoomed(glyphs@, zoom as int, pixels@),
{
    let mut pixels: Vec<Vec<u32>> = Vec::new();
    let mut g: usize = 0;
    while g < NGLYPHS
        invariant
            glyphs@.len() == NGLYPHS * NROWS * 2,
            1 <= zoom <= MAXZOOM,
            g <= NGLYPHS,
            pixels@.len() == g,
            forall|gg: int|
                0 <= gg < g ==> is_zoomed_glyph(glyphs@, zoom as int, gg, (#[trigger] pixels@[gg])@),
        decreases NGLYPHS - g,
    {
        pixels.push(zoomed_glyph(glyphs, zoom, g));
        g += 1;
    }
    pixels
}

/// The font.
pub struct Font {
    /// The glyphs: for each of the 16 rows of each glyph two words.
    pub glyphs: Vec<u16>,
    /// The zoomed glyphs, by zoom, glyph and row. A row has a bit for
    /// each of its pixels, the lowest for the first column. A zoom that
    /// was not made holds no glyphs.
    pub pixels: Vec<Vec<Vec<u32>>>,
}

impl Font {
    /// Whether the font holds all its glyphs, and each zoom that was made
    /// holds the glyphs of that zoom.
    pub open spec fn wf(&self) -> bool {
        &&& self.glyphs@.len() == NGLYPHS * NROWS * 2
        &&& forall|z: int|
            0 <= z < self.pixels@.len() ==> (#[trigger] self.pixels@[z])@.len() == 0 || (1 <= z
                <= MAXZOOM && is_zoomed(self.glyphs@, z, self.pixels@[z]@))
    }

    /// Whether the zoom was made.
    pub open spec fn has_zoom(&self, zoom: int) -> bool {
        0 <= zoom < self.pixels@.len() && self.pixels@[zoom]@.len() != 0
    }

    /// Unpacks a font from its code words, each given as the difference
    /// to the one before, and its packed glyphs. A zoom has to be made
    /// before the font can be drawn. There is no font where the data cannot
    /// be unpacked or does not hold 96 glyphs.
    pub fn new(dwords: &[u16], indices: &[u8]) -> (r: Option<Font>)
        ensures
            r is Some <==> (unpacked(dwords@, indices@) matches Some(glyphs) && glyphs.len() == NGLYPHS
                * NROWS * 2),
            r matches Some(font) ==> unpacked(dwords@, indices@) == Some(font.glyphs@)
                && font.pixels@.len() == 0 && font.wf(),
    {
        match decompress(dwords, indices) {
            Some(glyphs) => if glyphs.len() == NGLYPHS * NROWS * 2 {
                Some(Font { glyphs, pixels: Vec::new() })
            } else {
                None
            },
            None => None,
        }
    }

    /// Makes the glyphs of the zoom `zoom`, unless they were made before.
    pub fn create_zoomed_font(&mut self, zoom: usize)
        requires
            old(self).wf(),
            1 <= zoom <= MAXZOOM,
        ensures
            final(self).wf(),
            final(self).has_zoom(zoom as int),
            final(self).glyphs == old(self).glyphs,
            final(self).pixels@.len() == if old(self).pixels@.len() > zoom {
                old(self).pixels@.len() as int
            } else {
                zoom + 1
            },
            forall|z: int|
                0 <= z < final(self).pixels@.len() && z != zoom ==> #[trigger] final(self).pixels@[z]@
                    == if z < old(self).pixels@.len() {
                    old(self).pixels@[z]@
                } else {
                    Seq::<Vec<u32>>::empty()
                },
            old(self).has_zoom(zoom as int) ==> final(self).pixels@ == old(self).pixels@,
    {
        if zoom < self.pixels.len() && self.pixels[zoom].len() != 0 {
            return;
        }
        let pixels = zoomed_glyphs(&self.glyphs, zoom);
        while self.pixels.len() <= zoom
            invariant
                self.glyphs == old(self).glyphs,
                self.pixels@.len() >= old(self).pixels@.len(),
                self.pixels@.len() > old(self).pixels@.len() ==> self.pixels@.len() <= zoom + 1,
                forall|z: int|
                    0 <= z < self.pixels@.len() ==> #[trigger] self.pixels@[z]@ == if z < old(
                        self,
                    ).pixels@.len() {
                        old(self).pixels@[z]@
                    } else {
                        Seq::<Vec<u32>>::empty()
                    },
            decreases zoom + 1 - self.pixels@.len(),
        {
            self.pixels.push(Vec::new());
        }
        self.pixels.set(zoom, pixels);
    }
}

} // verus!
