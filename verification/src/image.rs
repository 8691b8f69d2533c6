//! Colours and images as plain values: gradients, and the smooth scaling
//! of an image.
//!
//! All of it is reckoned in whole numbers. Weights are fixed-point
//! numbers with eleven bits behind the point: a weight of one is written
//! as 2048.

use vstd::prelude::*;

verus! {

/// A colour: red, green and blue.
pub type Rgb = (u8, u8, u8);

/// The quotient of `a` by `b`, rounded towards zero. `b` is above zero.
pub open spec fn trunc_div(a: int, b: int) -> int {
    if a >= 0 {
        a / b
    } else {
        -((-a) / b)
    }
}

/// The size of a number.
pub open spec fn magnitude(a: int) -> int {
    if a >= 0 {
        a
    } else {
        -a
    }
}

/// A colour that changes evenly from one to another.
#[derive(Clone, Copy, Debug, PartialEq, Eq)]
pub struct Gradient {
    /// The colour at the start, mostly the top.
    pub zero: Rgb,
    /// The colour at the end, mostly the bottom.
    pub one: Rgb,
}

/// The largest position, and the largest length, of a gradient.
pub const MAXBLEND: i64 = 0x1000000;

/// The part of a colour at `num` of `denom` on the way from `zero` to
/// `one`. Where the position lies beyond the ends, the result wraps
/// around as a byte does.
pub open spec fn mixed(zero: u8, one: u8, num: int, denom: int) -> u8 {
    ((zero + trunc_div((one - zero) * num, denom)) % 256) as u8
}

/// The part of a colour at a position of a gradient.
fn mix(zero: u8, one: u8, num: i64, denom: i64) -> (r: u8)
    requires
        -MAXBLEND <= num <= MAXBLEND,
        0 < denom <= MAXBLEND,
    ensures
        r == mixed(zero, one, num as int, denom as int),
{
    let diff: i64 = (one as i64) - (zero as i64);
    assert(-255 * MAXBLEND <= diff * num <= 255 * MAXBLEND) by (nonlinear_arith)
        requires
            -255 <= diff <= 255,
            -MAXBLEND <= num <= MAXBLEND,
    ;
    let way: i64 = diff * num / denom;
    assert(way == trunc_div(diff * num, denom as int));
    assert(-255 * MAXBLEND <= way <= 255 * MAXBLEND) by (nonlinear_arith)
        requires
            -255 * MAXBLEND <= diff * num <= 255 * MAXBLEND,
            denom >= 1,
            way == trunc_div(diff * num, denom as int),
    ;
    let v: i64 = (zero as i64) + way;
    let m: i64 = v % 256;
    if m < 0 {
        (m + 256) as u8
    } else {
        m as u8
    }
}

impl Gradient {
    /// The gradient from `top` to `bottom`.
    pub fn new(top: Rgb, bottom: Rgb) -> (r: Gradient)
        ensures
            r == (Gradient { zero: top, one: bottom }),
    {
        Gradient { zero: top, one: bottom }
    }

    /// The colour at `num` of `denom` on the way from the start to the
    /// end.
    pub open spec fn blended(self, num: int, denom: int) -> Rgb {
        (
            mixed(self.zero.0, self.one.0, num, denom),
            mixed(self.zero.1, self.one.1, num, denom),
            mixed(self.zero.2, self.one.2, num, denom),
        )
    }

    /// Finds the colour at `num` of `denom`.
    pub fn blend(&self, num: i64, denom: i64) -> (r: Rgb)
        requires
            -MAXBLEND <= num <= MAXBLEND,
            0 < denom <= MAXBLEND,
        ensures
            r == self.blended(num as int, denom as int),
    {
        (
            mix(self.zero.0, self.one.0, num, denom),
            mix(self.zero.1, self.one.1, num, denom),
            mix(self.zero.2, self.one.2, num, denom),
        )
    }
}

/// The largest width and height of an image that is scaled.
pub const MAXSIDE: usize = 4096;

/// The weight that a pixel at the distance `x / y` has in the scaled
/// image, as a fixed-point number: one half of `2 - 5t^2 + 3t^3` up to the
/// distance one, one half of `4 - 8t + 5t^2 - t^3` up to the distance two,
/// and nothing beyond. `y` is above zero.
pub open spec fn kernel(x: int, y: int) -> int {
    let x = magnitude(x);
    if x < y {
        trunc_div((2 * y * y - 5 * x * x + (3 * x * x / y) * x) * 1024, y * y)
    } else if x < 2 * y {
        trunc_div((4 * y * y - 8 * x * y + 5 * x * x - (x * x / y) * x) * 1024, y * y)
    } else {
        0
    }
}

/// No weight is larger than twelve.
pub proof fn lemma_kernel_bound(x: int, y: int)
    requires
        y > 0,
    ensures
        -24576 <= kernel(x, y) <= 24576,
{
    let x = magnitude(x);
    let yy = y * y;
    assert(yy >= 1) by (nonlinear_arith)
        requires
            y >= 1,
            yy == y * y,
    ;
    if x < 2 * y {
        let cube = if x < y {
            (3 * x * x / y) * x
        } else {
            (x * x / y) * x
        };
        assert(0 <= x * x <= 4 * yy && 0 <= x * y <= 2 * yy) by (nonlinear_arith)
            requires
                0 <= x < 2 * y,
                yy == y * y,
        ;
        assert(x < y ==> x * x <= yy) by (nonlinear_arith)
            requires
                0 <= x,
                yy == y * y,
        ;
        assert(0 <= cube <= 8 * yy) by (nonlinear_arith)
            requires
                0 <= x < 2 * y,
                yy == y * y,
                cube == if x < y {
                    (3 * x * x / y) * x
                } else {
                    (x * x / y) * x
                },
        ;
        let num = if x < y {
            2 * yy - 5 * (x * x) + cube
        } else {
            4 * yy - 8 * (x * y) + 5 * (x * x) - cube
        };
        assert(-24 * yy <= num <= 24 * yy);
        assert(-24576 <= trunc_div(num * 1024, yy) <= 24576) by (nonlinear_arith)
            requires
                -24 * yy <= num <= 24 * yy,
                yy >= 1,
        ;
        assert(2 * y * y == 2 * yy && 4 * y * y == 4 * yy && 5 * x * x == 5 * (x * x) && 8 * x * y == 8
            * (x * y)) by (nonlinear_arith)
            requires
                yy == y * y,
        ;
    }
}

/// Finds the weight of a pixel at the distance `x / y`.
pub fn bicubic_kernel(x: i64, y: i64) -> (r: i64)
    requires
        0 < y <= MAXSIDE,
        -0x100000000 <= x <= 0x100000000,
    ensures
        r == kernel(x as int, y as int),
        -24576 <= r <= 24576,
{
    proof {
        lemma_kernel_bound(x as int, y as int);
    }
    let x: i64 = if x < 0 {
        -x
    } else {
        x
    };
    if x < 2 * y {
        assert(1 <= y * y <= 0x1000000) by (nonlinear_arith)
            requires
                0 < y <= 4096,
        ;
        let yy: i64 = y * y;
        assert(0 <= x * x <= 4 * yy && 0 <= x * y <= 2 * yy && 1 <= yy <= 0x1000000) by (nonlinear_arith)
            requires
                0 <= x < 2 * y,
                0 < y <= 4096,
                yy == y * y,
        ;
        let xx: i64 = x * x;
        if x < y {
            let third: i64 = 3 * xx / y;
            assert(0 <= third * x <= 8 * yy) by (nonlinear_arith)
                requires
                    0 <= x < y,
                    yy == y * y,
                    xx == x * x,
                    0 < y,
                    third == (3 * xx) / (y as int),
            ;
            assert(3 * xx == 3 * x * x && 2 * yy == 2 * y * y && 5 * xx == 5 * x * x) by (nonlinear_arith)
                requires
                    xx == x * x,
                    yy == y * y,
            ;
            (2 * yy - 5 * xx + third * x) * 1024 / yy
        } else {
            let third: i64 = xx / y;
            assert(0 <= third * x <= 8 * yy) by (nonlinear_arith)
                requires
                    0 <= x < 2 * y,
                    0 < y,
                    yy == y * y,
                    xx == x * x,
                    third == (xx as int) / (y as int),
            ;
            let xy: i64 = x * y;
            assert(4 * yy == 4 * y * y && 5 * xx == 5 * x * x && 8 * xy == 8 * x * y) by (nonlinear_arith)
                requires
                    xx == x * x,
                    yy == y * y,
                    xy == x * y,
            ;
            (4 * yy - 8 * xy + 5 * xx - third * x) * 1024 / yy
        }
    } else {
        0
    }
}

/// An image: the colours of its pixels, row by row.
#[derive(Clone, Debug, PartialEq, Eq)]
pub struct Bitmap {
    pub width: usize,
    pub height: usize,
    pub rgb: Vec<Rgb>,
}

/// The place of the pixel in the column `x` and the row `y` among the
/// pixels of an image of the width `width`.
pub open spec fn spot(x: int, y: int, width: int) -> int {
    x + y * width
}

impl Bitmap {
    /// Whether the image holds a colour for each of its pixels.
    pub open spec fn wf(&self) -> bool {
        self.rgb@.len() == self.width * self.height
    }

    /// The colour of the pixel in the column `x` and the row `y`.
    pub open spec fn at(&self, x: int, y: int) -> Rgb {
        self.rgb@[spot(x, y, self.width as int)]
    }

    /// Reads the colour of a pixel.
    pub fn get_pixel(&self, x: usize, y: usize) -> (r: Rgb)
        requires
            self.wf(),
            x < self.width,
            y < self.height,
        ensures
            r == self.at(x as int, y as int),
    {
        let len = self.rgb.len();
        assert(0 <= y * self.width && x + y * self.width < self.width * self.height) by (nonlinear_arith)
            requires
                0 <= x < self.width,
                0 <= y < self.height,
        ;
        self.rgb[x + y * self.width]
    }
}

/// Where the pixel at the place `i` of a side of the scaled image comes
/// from, and what is left over: the place in the image moves on by one
/// whenever the steps of the length `from`, taken together, have gone
/// beyond the length `to`.
pub open spec fn source_at(i: int, from: int, to: int) -> (int, int)
    decreases i,
{
    if i <= 0 {
        (0, 0)
    } else {
        let (place, rest) = source_at(i - 1, from, to);
        if rest + from > to {
            (place + 1, rest + from - to)
        } else {
            (place, rest + from)
        }
    }
}

/// A place in the image lies no further than the steps taken.
pub proof fn lemma_source_at(i: int, from: int, to: int)
    requires
        0 <= i,
        0 <= from,
        0 < to,
    ensures
        0 <= source_at(i, from, to).0 <= i,
        0 <= source_at(i, from, to).1 <= i * from,
    decreases i,
{
    if i > 0 {
        lemma_source_at(i - 1, from, to);
        assert(i * from == (i - 1) * from + from) by (nonlinear_arith);
    }
}

/// The weights of the four pixels around the place `place`, the first of
/// which lies one before it, for the pixel at the place `i` of the scaled
/// image.
pub open spec fn weights(place: int, i: int, from: int, to: int) -> Seq<int> {
    Seq::new(4, |k: int| kernel((place + k - 1) * to - i * from, to))
}

/// One of the three parts of a colour.
pub open spec fn channel(c: Rgb, ch: int) -> int {
    if ch == 0 {
        c.0 as int
    } else if ch == 1 {
        c.1 as int
    } else {
        c.2 as int
    }
}

/// What the `n`th of the sixteen pixels around `(x, y)` adds to a part of
/// the scaled pixel: its colour times its two weights. A pixel outside of
/// the image adds nothing.
pub open spec fn tap(src: Bitmap, x: int, y: int, a0: Seq<int>, a1: Seq<int>, n: int, ch: int) -> int {
    let xx = x + n / 4 - 1;
    let yy = y + n % 4 - 1;
    if 0 <= xx < src.width && 0 <= yy < src.height {
        channel(src.at(xx, yy), ch) * ((a0[n / 4] * a1[n % 4]) / 64)
    } else {
        0
    }
}

/// What the first `n` of the sixteen pixels add.
pub open spec fn taps(src: Bitmap, x: int, y: int, a0: Seq<int>, a1: Seq<int>, n: int, ch: int) -> int
    decreases n,
{
    if n <= 0 {
        0
    } else {
        taps(src, x, y, a0, a1, n - 1, ch) + tap(src, x, y, a0, a1, n - 1, ch)
    }
}

/// The number as a byte: nothing below zero, and 255 at most.
pub open spec fn to_byte(v: int) -> u8 {
    if v < 0 {
        0
    } else if v > 255 {
        255
    } else {
        v as u8
    }
}

/// The colour of the pixel `(i, j)` of the image `src` scaled to the
/// width `width` and the height `height`.
pub open spec fn scaled_at(src: Bitmap, width: int, height: int, i: int, j: int) -> Rgb {
    let x = source_at(i, src.width - 1, width - 1).0;
    let y = source_at(j, src.height - 1, height - 1).0;
    let a0 = weights(x, i, src.width - 1, width - 1);
    let a1 = weights(y, j, src.height - 1, height - 1);
    (
        to_byte(taps(src, x, y, a0, a1, 16, 0) / 65536),
        to_byte(taps(src, x, y, a0, a1, 16, 1) / 65536),
        to_byte(taps(src, x, y, a0, a1, 16, 2) / 65536),
    )
}

/// The quotient of `a` by `b`, rounded down.
fn floor_div(a: i64, b: i64) -> (r: i64)
    requires
        0 < b <= 0x10000,
        -0x4000000000000000 <= a <= 0x4000000000000000,
    ensures
        r == (a as int) / (b as int),
{
    if a >= 0 {
        a / b
    } else {
        let up: i64 = (-a + (b - 1)) / b;
        assert(-up == (a as int) / (b as int)) by (nonlinear_arith)
            requires
                a < 0,
                b > 0,
                up == ((-a + (b - 1)) as int) / (b as int),
        ;
        -up
    }
}

/// The number as a byte.
fn clamp_byte(v: i64) -> (r: u8)
    ensures
        r == to_byte(v as int),
{
    if v < 0 {
        0
    } else if v > 255 {
        255
    } else {
        v as u8
    }
}

/// Where the pixels of a side of the scaled image come from.
fn source_places(n: usize, from: i64, to: i64) -> (r: Vec<i64>)
    requires
        n <= MAXSIDE,
        0 <= from < MAXSIDE,
        0 < to < MAXSIDE,
    ensures
        r@.len() == n,
        forall|i: int| 0 <= i < n ==> #[trigger] r@[i] == source_at(i, from as int, to as int).0,
{
    let mut r: Vec<i64> = Vec::new();
    let mut place: i64 = 0;
    let mut rest: i64 = 0;
    let mut i: usize = 0;
    while i < n
        invariant
            i <= n <= MAXSIDE,
            0 <= from < MAXSIDE,
            0 < to < MAXSIDE,
            r@.len() == i,
            (place as int, rest as int) == source_at(i as int, from as int, to as int),
            forall|k: int| 0 <= k < i ==> #[trigger] r@[k] == source_at(k, from as int, to as int).0,
        decreases n - i,
    {
        proof {
            lemma_source_at(i as int, from as int, to as int);
            assert(i * from <= 4096 * 4096) by (nonlinear_arith)
                requires
                    0 <= i <= 4096,
                    0 <= from < 4096,
            ;
        }
        r.push(place);
        rest = rest + from;
        if rest > to {
            place = place + 1;
            rest = rest - to;
        }
        i += 1;
    }
    r
}

/// The weights of the four pixels around a place.
fn weights_at(place: i64, i: usize, from: i64, to: i64) -> (r: [i64; 4])
    requires
        0 <= place <= i < MAXSIDE,
        0 <= from < MAXSIDE,
        0 < to < MAXSIDE,
    ensures
        r@.len() == 4,
        forall|k: int| 0 <= k < 4 ==> #[trigger] r@[k] == weights(place as int, i as int, from as int, to as int)[k],
        forall|k: int| 0 <= k < 4 ==> -24576 <= #[trigger] r@[k] <= 24576,
{
    assert(0 <= i * from <= 4096 * 4096) by (nonlinear_arith)
        requires
            0 <= i < 4096,
            0 <= from < 4096,
    ;
    let back: i64 = (i as i64) * from;
    assert(forall|k: int| -1 <= k <= 2 ==> -8192 * 4096 <= #[trigger] ((place + k) * to) <= 8192 * 4096)
        by (nonlinear_arith)
        requires
            0 <= place < 4096,
            0 < to < 4096,
    ;
    assert((place - 1) * to == (place + (-1)) * to);
    assert(place * to == (place + 0) * to);
    [
        bicubic_kernel((place - 1) * to - back, to),
        bicubic_kernel(place * to - back, to),
        bicubic_kernel((place + 1) * to - back, to),
        bicubic_kernel((place + 2) * to - back, to),
    ]
}

/// Makes a pixel of the scaled image from the sixteen pixels around a
/// place.
fn scaled_pixel(src: &Bitmap, x: i64, y: i64, a0: &[i64; 4], a1: &[i64; 4]) -> (r: Rgb)
    requires
        src.wf(),
        src.width <= MAXSIDE,
        src.height <= MAXSIDE,
        0 <= x <= MAXSIDE,
        0 <= y <= MAXSIDE,
        forall|k: int| 0 <= k < 4 ==> -24576 <= #[trigger] a0@[k] <= 24576,
        forall|k: int| 0 <= k < 4 ==> -24576 <= #[trigger] a1@[k] <= 24576,
    ensures
        r == (
            to_byte(taps(*src, x as int, y as int, a0@.map_values(|v: i64| v as int), a1@.map_values(|v: i64| v as int), 16, 0) / 65536),
            to_byte(taps(*src, x as int, y as int, a0@.map_values(|v: i64| v as int), a1@.map_values(|v: i64| v as int), 16, 1) / 65536),
            to_byte(taps(*src, x as int, y as int, a0@.map_values(|v: i64| v as int), a1@.map_values(|v: i64| v as int), 16, 2) / 65536),
        ),
{
    let ghost w0 = a0@.map_values(|v: i64| v as int);
    let ghost w1 = a1@.map_values(|v: i64| v as int);
    let mut r: i64 = 0;
    let mut g: i64 = 0;
    let mut b: i64 = 0;
    let mut n: usize = 0;
    while n < 16
        invariant
            n <= 16,
            src.wf(),
            src.width <= MAXSIDE,
            src.height <= MAXSIDE,
            0 <= x <= MAXSIDE,
            0 <= y <= MAXSIDE,
            w0 == a0@.map_values(|v: i64| v as int),
            w1 == a1@.map_values(|v: i64| v as int),
            forall|k: int| 0 <= k < 4 ==> -24576 <= #[trigger] a0@[k] <= 24576,
            forall|k: int| 0 <= k < 4 ==> -24576 <= #[trigger] a1@[k] <= 24576,
            r == taps(*src, x as int, y as int, w0, w1, n as int, 0),
            g == taps(*src, x as int, y as int, w0, w1, n as int, 1),
            b == taps(*src, x as int, y as int, w0, w1, n as int, 2),
            -n * 0x100000000 <= r <= n * 0x100000000,
            -n * 0x100000000 <= g <= n * 0x100000000,
            -n * 0x100000000 <= b <= n * 0x100000000,
        decreases 16 - n,
    {
        let k0 = n / 4;
        let k1 = n % 4;
        let xx: i64 = x + (k0 as i64) - 1;
        let yy: i64 = y + (k1 as i64) - 1;
        if 0 <= xx && xx < src.width as i64 && 0 <= yy && yy < src.height as i64 {
            let c = src.get_pixel(xx as usize, yy as usize);
            let p0 = a0[k0];
            let p1 = a1[k1];
            assert(w0[k0 as int] == p0 && w1[k1 as int] == p1);
            assert(-0x40000000 <= p0 * p1 <= 0x40000000) by (nonlinear_arith)
                requires
                    -24576 <= p0 <= 24576,
                    -24576 <= p1 <= 24576,
            ;
            let d = floor_div(p0 * p1, 64);
            assert(-0x1000000 <= d <= 0x1000000);
            assert(forall|v: int| 0 <= v <= 255 ==> -0x100000000 <= #[trigger] (v * d) <= 0x100000000)
                by (nonlinear_arith)
                requires
                    -0x1000000 <= d <= 0x1000000,
            ;
            r = r + (c.0 as i64) * d;
            g = g + (c.1 as i64) * d;
            b = b + (c.2 as i64) * d;
        }
        n += 1;
    }
    (
        clamp_byte(floor_div(r, 65536)),
        clamp_byte(floor_div(g, 65536)),
        clamp_byte(floor_div(b, 65536)),
    )
}

/// Scales an image to another size, smoothly. It is made for making an
/// image larger; a smaller one comes out coarse.
pub fn bicubic_interpolation(src: &Bitmap, width: usize, height: usize) -> (r: Bitmap)
    requires
        src.wf(),
        1 <= src.width <= MAXSIDE,
        1 <= src.height <= MAXSIDE,
        2 <= width <= MAXSIDE,
        2 <= height <= MAXSIDE,
    ensures
        r.wf(),
        r.width == width,
        r.height == height,
        forall|i: int, j: int|
            0 <= i < width && 0 <= j < height ==> #[trigger] r.at(i, j) == scaled_at(
                *src,
                width as int,
                height as int,
                i,
                j,
            ),
{
    let w: i64 = (width - 1) as i64;
    let h: i64 = (height - 1) as i64;
    let ww: i64 = (src.width - 1) as i64;
    let hh: i64 = (src.height - 1) as i64;
    let xs = source_places(width, ww, w);
    let ys = source_places(height, hh, h);
    let mut rgb: Vec<Rgb> = Vec::new();
    let mut j: usize = 0;
    while j < height
        invariant
            src.wf(),
            1 <= src.width <= MAXSIDE,
            1 <= src.height <= MAXSIDE,
            2 <= width <= MAXSIDE,
            2 <= height <= MAXSIDE,
            w == width - 1,
            h == height - 1,
            ww == src.width - 1,
            hh == src.height - 1,
            xs@.len() == width,
            ys@.len() == height,
            forall|i: int| 0 <= i < width ==> #[trigger] xs@[i] == source_at(i, ww as int, w as int).0,
            forall|i: int| 0 <= i < height ==> #[trigger] ys@[i] == source_at(i, hh as int, h as int).0,
            j <= height,
            rgb@.len() == j * width,
            forall|jj: int, ii: int|
                0 <= jj < j && 0 <= ii < width ==> rgb@[#[trigger] spot(ii, jj, width as int)] == scaled_at(
                    *src,
                    width as int,
                    height as int,
                    ii,
                    jj,
                ),
        decreases height - j,
    {
        proof {
            lemma_source_at(j as int, hh as int, h as int);
        }
        let y = ys[j];
        let a1 = weights_at(y, j, hh, h);
        let mut i: usize = 0;
        while i < width
            invariant
                src.wf(),
                1 <= src.width <= MAXSIDE,
                1 <= src.height <= MAXSIDE,
                2 <= width <= MAXSIDE,
                2 <= height <= MAXSIDE,
                w == width - 1,
                h == height - 1,
                ww == src.width - 1,
                hh == src.height - 1,
                xs@.len() == width,
                forall|i: int| 0 <= i < width ==> #[trigger] xs@[i] == source_at(i, ww as int, w as int).0,
                j < height,
                i <= width,
                0 <= y <= j,
                y == source_at(j as int, hh as int, h as int).0,
                forall|k: int|
                    0 <= k < 4 ==> #[trigger] a1@[k] == weights(y as int, j as int, hh as int, h as int)[k],
                forall|k: int| 0 <= k < 4 ==> -24576 <= #[trigger] a1@[k] <= 24576,
                rgb@.len() == j * width + i,
                forall|jj: int, ii: int|
                    0 <= jj < j && 0 <= ii < width ==> rgb@[#[trigger] spot(ii, jj, width as int)] == scaled_at(
                        *src,
                        width as int,
                        height as int,
                        ii,
                        jj,
                    ),
                forall|ii: int|
                    0 <= ii < i ==> rgb@[#[trigger] spot(ii, j as int, width as int)] == scaled_at(
                        *src,
                        width as int,
                        height as int,
                        ii,
                        j as int,
                    ),
            decreases width - i,
        {
            proof {
                lemma_source_at(i as int, ww as int, w as int);
            }
            let x = xs[i];
            let a0 = weights_at(x, i, ww, w);
            let pixel = scaled_pixel(src, x, y, &a0, &a1);
            proof {
                assert(a0@.map_values(|v: i64| v as int) =~= weights(x as int, i as int, ww as int, w as int));
                assert(a1@.map_values(|v: i64| v as int) =~= weights(y as int, j as int, hh as int, h as int));
                assert(pixel == scaled_at(*src, width as int, height as int, i as int, j as int));
                assert forall|jj: int, ii: int| 0 <= jj < j && 0 <= ii < width implies #[trigger] spot(
                    ii,
                    jj,
                    width as int,
                ) < j * width by {
                    assert(ii + jj * width < j * width) by (nonlinear_arith)
                        requires
                            0 <= jj < j,
                            0 <= ii < width,
                    ;
                }
                assert(j * width + i <= 4096 * 4096) by (nonlinear_arith)
                    requires
                        j < 4096,
                        i < width <= 4096,
                ;
            }
            rgb.push(pixel);
            i += 1;
        }
        proof {
            assert((j + 1) * width == j * width + width) by (nonlinear_arith);
        }
        j += 1;
    }
    assert(height * width == width * height) by (nonlinear_arith);
    let r = Bitmap { width, height, rgb };
    assert forall|i: int, j: int| 0 <= i < width && 0 <= j < height implies #[trigger] r.at(i, j)
        == scaled_at(*src, width as int, height as int, i, j) by {
        assert(r.at(i, j) == r.rgb@[spot(i, j, width as int)]);
    }
    r
}

} // verus!
