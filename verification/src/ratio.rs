//! Exact rational numbers.
//!
//! Every measure position, tempo, scaling factor and duration of a chart is a
//! rational number. [`Ratio`] keeps such a number in lowest terms in two
//! 64-bit integers; its view is the real number it stands for. Arithmetic is
//! exact: an operation yields `None` exactly when the true result has no such
//! representation.

use vstd::prelude::*;

verus! {

/// The real number `n / d`.
pub open spec fn quot(n: int, d: int) -> real {
    (n as real) / (d as real)
}

/// Whether `n / d` can be stored as it stands.
pub open spec fn in_range(n: int, d: int) -> bool {
    i64::MIN <= n <= i64::MAX && 0 < d <= i64::MAX
}

/// Whether the real number `x` is a quotient of two 64-bit integers.
pub open spec fn representable(x: real) -> bool {
    exists|n: int, d: int| in_range(n, d) && x == #[trigger] quot(n, d)
}

/// Greatest common divisor by Euclid's algorithm.
pub open spec fn gcd(a: nat, b: nat) -> nat
    decreases b,
{
    if b == 0 {
        a
    } else {
        gcd(b, a % b)
    }
}

/// Coefficients `(x, y)` with `x * a + y * b == gcd(a, b)`.
pub open spec fn bezout(a: nat, b: nat) -> (int, int)
    decreases b,
{
    if b == 0 {
        (1, 0)
    } else {
        let (x, y) = bezout(b, a % b);
        (y, x - (a / b) * y)
    }
}

pub open spec fn abs_int(n: int) -> nat {
    if n < 0 {
        (-n) as nat
    } else {
        n as nat
    }
}

pub proof fn lemma_gcd_positive(a: nat, b: nat)
    requires
        a > 0 || b > 0,
    ensures
        gcd(a, b) > 0,
    decreases b,
{
    if b != 0 {
        lemma_gcd_positive(b, a % b);
    }
}

/// The greatest common divisor divides both arguments.
pub proof fn lemma_gcd_divides(a: nat, b: nat)
    requires
        a > 0 || b > 0,
    ensures
        gcd(a, b) > 0,
        a % gcd(a, b) == 0,
        b % gcd(a, b) == 0,
    decreases b,
{
    lemma_gcd_positive(a, b);
    if b != 0 {
        lemma_gcd_divides(b, a % b);
        let ai = a as int;
        let bi = b as int;
        let g = gcd(a, b) as int;
        let r = ai % bi;
        let k = ai / bi;
        lemma_div_exact(ai, bi);
        lemma_div_exact(bi, g);
        lemma_div_exact(r, g);
        let i = bi / g;
        let j = r / g;
        assert(ai == (k * i + j) * g) by (nonlinear_arith)
            requires
                ai == k * bi + r,
                bi == i * g,
                r == j * g,
        {
        }
        lemma_multiple_mod(k * i + j, g);
    }
}

/// Division with remainder.
pub proof fn lemma_div_exact(x: int, g: int)
    requires
        g > 0,
    ensures
        x == (x / g) * g + x % g,
        0 <= x % g < g,
{
    assert(x == (x / g) * g + x % g && 0 <= x % g < g) by (nonlinear_arith)
        requires
            g > 0,
    {
    }
}

/// A multiple of `g` leaves no remainder.
pub proof fn lemma_multiple_mod(k: int, g: int)
    requires
        g > 0,
    ensures
        (k * g) % g == 0,
        (k * g) / g == k,
{
    assert((k * g) % g == 0 && (k * g) / g == k) by (nonlinear_arith)
        requires
            g > 0,
    {
    }
}

/// Bezout's identity.
pub proof fn lemma_bezout(a: nat, b: nat)
    ensures
        bezout(a, b).0 * a + bezout(a, b).1 * b == gcd(a, b),
    decreases b,
{
    if b != 0 {
        lemma_bezout(b, a % b);
        let (x, y) = bezout(b, a % b);
        let r = (a % b) as int;
        let k = (a / b) as int;
        lemma_div_exact(a as int, b as int);
        assert(y * a + (x - k * y) * b == x * b + y * r) by (nonlinear_arith)
            requires
                a == k * b + r,
        {
        }
    }
}

/// A fraction in lowest terms has the smallest numerator and denominator of
/// all fractions of its value.
pub proof fn lemma_lowest_terms(n: int, d: int, m: int, e: int)
    requires
        d > 0,
        e > 0,
        n * e == m * d,
    ensures
        d / (gcd(abs_int(n), d as nat) as int) <= e,
        abs_int(n) / gcd(abs_int(n), d as nat) <= abs_int(m),
{
    let a = abs_int(n) as int;
    let b = abs_int(m) as int;
    let g = gcd(a as nat, d as nat) as int;
    lemma_gcd_divides(a as nat, d as nat);
    lemma_bezout(a as nat, d as nat);
    let (x, y) = bezout(a as nat, d as nat);
    let a0 = a / g;
    let d0 = d / g;
    lemma_div_exact(a, g);
    lemma_div_exact(d, g);
    assert(d0 > 0) by (nonlinear_arith)
        requires
            d == d0 * g,
            d > 0,
            g > 0,
    {
    }
    // |n| * e == |m| * d
    assert(a * e == b * d) by (nonlinear_arith)
        requires
            n * e == m * d,
            a == if n < 0 { -n } else { n },
            b == if m < 0 { -m } else { m },
            d > 0,
            e > 0,
    {
    }
    assert(a0 * e == b * d0) by (nonlinear_arith)
        requires
            a * e == b * d,
            a == a0 * g,
            d == d0 * g,
            g > 0,
    {
    }
    assert(x * a0 + y * d0 == 1) by (nonlinear_arith)
        requires
            x * a + y * d == g,
            a == a0 * g,
            d == d0 * g,
            g > 0,
    {
    }
    let k = x * b + y * e;
    assert(e == d0 * k) by (nonlinear_arith)
        requires
            x * a0 + y * d0 == 1,
            a0 * e == b * d0,
            k == x * b + y * e,
    {
    }
    assert(k >= 1 && d0 <= e) by (nonlinear_arith)
        requires
            e == d0 * k,
            e > 0,
            d0 > 0,
    {
    }
    assert(b == a0 * k) by (nonlinear_arith)
        requires
            a0 * e == b * d0,
            e == d0 * k,
            d0 > 0,
    {
    }
    assert(a0 <= b) by (nonlinear_arith)
        requires
            b == a0 * k,
            k >= 1,
            a0 >= 0,
    {
    }
}

/// Dividing both numbers by their greatest common divisor leaves them with
/// no common divisor but one.
pub proof fn lemma_reduced_coprime(a: nat, d: nat)
    requires
        d > 0,
    ensures
        gcd(a / gcd(a, d), d / gcd(a, d)) == 1,
{
    let g = gcd(a, d) as int;
    lemma_gcd_divides(a, d);
    lemma_bezout(a, d);
    let (x, y) = bezout(a, d);
    let a0 = a as int / g;
    let d0 = d as int / g;
    lemma_div_exact(a as int, g);
    lemma_div_exact(d as int, g);
    assert(d0 > 0) by (nonlinear_arith)
        requires
            d == d0 * g,
            d > 0,
            g > 0,
    {
    }
    assert(a0 >= 0) by (nonlinear_arith)
        requires
            a == a0 * g,
            a >= 0,
            g > 0,
    {
    }
    assert(x * a0 + y * d0 == 1) by (nonlinear_arith)
        requires
            x * a + y * d == g,
            a == a0 * g,
            d == d0 * g,
            g > 0,
    {
    }
    let h = gcd(a0 as nat, d0 as nat) as int;
    lemma_gcd_divides(a0 as nat, d0 as nat);
    lemma_div_exact(a0, h);
    lemma_div_exact(d0, h);
    let i = a0 / h;
    let j = d0 / h;
    assert(h == 1) by (nonlinear_arith)
        requires
            x * a0 + y * d0 == 1,
            a0 == i * h,
            d0 == j * h,
            h > 0,
    {
        assert(h * (x * i + y * j) == 1);
    }
}

/// The product of two integers, taken as a real number.
pub proof fn lemma_cast_mul(a: int, b: int)
    ensures
        (a * b) as real == (a as real) * (b as real),
{
    assert((a * b) as real == (a as real) * (b as real)) by (nonlinear_arith);
}

/// Changing both signs keeps the value.
pub proof fn lemma_quot_neg(n: int, d: int)
    requires
        d != 0,
    ensures
        quot(-n, -d) == quot(n, d),
{
    let nr = n as real;
    let dr = d as real;
    assert((-nr) / (-dr) == nr / dr) by (nonlinear_arith)
        requires
            dr != 0real,
    {
    }
}

/// A fraction over one is its numerator.
pub proof fn lemma_quot_one(n: int)
    ensures
        quot(n, 1) == n as real,
{
    let nr = n as real;
    assert(nr / 1real == nr) by (nonlinear_arith);
}

/// Cancelling a common factor keeps the value.
pub proof fn lemma_quot_scale(n: int, d: int, g: int)
    requires
        d > 0,
        g > 0,
    ensures
        quot(n * g, d * g) == quot(n, d),
{
    let nr = n as real;
    let dr = d as real;
    let gr = g as real;
    lemma_cast_mul(n, g);
    lemma_cast_mul(d, g);
    assert((nr * gr) / (dr * gr) == nr / dr) by (nonlinear_arith)
        requires
            dr > 0real,
            gr > 0real,
    {
    }
}

/// Two fractions compare as their cross products do.
pub proof fn lemma_quot_order(a: int, b: int, c: int, d: int)
    requires
        b > 0,
        d > 0,
    ensures
        (quot(a, b) < quot(c, d)) == (a * d < c * b),
        (quot(a, b) <= quot(c, d)) == (a * d <= c * b),
        (quot(a, b) == quot(c, d)) == (a * d == c * b),
{
    let ar = a as real;
    let br = b as real;
    let cr = c as real;
    let dr = d as real;
    lemma_cast_mul(a, d);
    lemma_cast_mul(c, b);
    assert((ar / br < cr / dr) == (ar * dr < cr * br)) by (nonlinear_arith)
        requires
            br > 0real,
            dr > 0real,
    {
    }
    assert((ar / br == cr / dr) == (ar * dr == cr * br)) by (nonlinear_arith)
        requires
            br > 0real,
            dr > 0real,
    {
    }
}

/// Sum, difference, product and quotient of two fractions.
pub proof fn lemma_quot_arith(a: int, b: int, c: int, d: int)
    requires
        b > 0,
        d > 0,
    ensures
        quot(a, b) + quot(c, d) == quot(a * d + c * b, b * d),
        quot(a, b) - quot(c, d) == quot(a * d - c * b, b * d),
        quot(a, b) * quot(c, d) == quot(a * c, b * d),
        c > 0 ==> quot(a, b) / quot(c, d) == quot(a * d, b * c),
        c < 0 ==> quot(a, b) / quot(c, d) == quot(-(a * d), -(b * c)),
        b * d > 0,
{
    let ar = a as real;
    let br = b as real;
    let cr = c as real;
    let dr = d as real;
    lemma_cast_mul(a, d);
    lemma_cast_mul(c, b);
    lemma_cast_mul(b, d);
    lemma_cast_mul(a, c);
    lemma_cast_mul(b, c);
    assert(b * d > 0) by (nonlinear_arith)
        requires
            b > 0,
            d > 0,
    {
    }
    assert(ar / br + cr / dr == (ar * dr + cr * br) / (br * dr)) by (nonlinear_arith)
        requires
            br > 0real,
            dr > 0real,
    {
    }
    assert(ar / br - cr / dr == (ar * dr - cr * br) / (br * dr)) by (nonlinear_arith)
        requires
            br > 0real,
            dr > 0real,
    {
    }
    assert((ar / br) * (cr / dr) == (ar * cr) / (br * dr)) by (nonlinear_arith)
        requires
            br > 0real,
            dr > 0real,
    {
    }
    if c > 0 {
        assert((ar / br) / (cr / dr) == (ar * dr) / (br * cr)) by (nonlinear_arith)
            requires
                br > 0real,
                dr > 0real,
                cr > 0real,
        {
        }
    }
    if c < 0 {
        assert((ar / br) / (cr / dr) == (-(ar * dr)) / (-(br * cr))) by (nonlinear_arith)
            requires
                br > 0real,
                dr > 0real,
                cr < 0real,
        {
        }
    }
}

/// The floor of a fraction is the Euclidean quotient.
pub proof fn lemma_quot_floor(a: int, b: int)
    requires
        b > 0,
    ensures
        quot(a, b).floor() == a / b,
{
    let ar = a as real;
    let br = b as real;
    let k = a / b;
    let r = a % b;
    lemma_div_exact(a, b);
    let kr = k as real;
    let rr = r as real;
    lemma_cast_mul(k, b);
    assert(ar == kr * br + rr);
    assert(kr <= ar / br < kr + 1real) by (nonlinear_arith)
        requires
            br > 0real,
            ar == kr * br + rr,
            0real <= rr < br,
    {
    }
}

/// The Euclidean quotient of a negative number, from that of its magnitude.
pub proof fn lemma_floor_negative(a: int, d: int)
    requires
        a > 0,
        d > 0,
    ensures
        (-a) / d == -((a + d - 1) / d),
        1 <= (a + d - 1) / d <= a,
{
    let q = (-a) / d;
    let r = (-a) % d;
    lemma_div_exact(-a, d);
    let c = (a + d - 1) / d;
    let e = (a + d - 1) % d;
    lemma_div_exact(a + d - 1, d);
    // (q + c) * d == r' for some -d < r' < d
    assert(q + c == 0) by (nonlinear_arith)
        requires
            -a == q * d + r,
            0 <= r < d,
            a + d - 1 == c * d + e,
            0 <= e < d,
            d > 0,
    {
        // (q + c) * d == d - 1 - r - e, which lies strictly between -d and d
        assert((q + c) * d == d - 1 - r - e);
    }
    assert(1 <= c <= a) by (nonlinear_arith)
        requires
            a + d - 1 == c * d + e,
            0 <= e < d,
            a > 0,
            d > 0,
    {
    }
}

/// The product of two 64-bit integers stays inside 128 bits, and well inside
/// when one of them is a denominator.
pub proof fn lemma_product_bound(x: int, y: int)
    requires
        i64::MIN <= x <= i64::MAX,
        i64::MIN <= y <= i64::MAX,
    ensures
        -0x4000_0000_0000_0000_0000_0000_0000_0000 < x * y
            <= 0x4000_0000_0000_0000_0000_0000_0000_0000,
        y > 0 ==> x * y < 0x4000_0000_0000_0000_0000_0000_0000_0000,
        x > 0 && y > 0 ==> x * y > 0,
{
    assert(-0x4000_0000_0000_0000_0000_0000_0000_0000 < x * y
        <= 0x4000_0000_0000_0000_0000_0000_0000_0000) by (nonlinear_arith)
        requires
            -0x8000_0000_0000_0000 <= x <= 0x7fff_ffff_ffff_ffff,
            -0x8000_0000_0000_0000 <= y <= 0x7fff_ffff_ffff_ffff,
    {
    }
    if y > 0 {
        assert(x * y < 0x4000_0000_0000_0000_0000_0000_0000_0000) by (nonlinear_arith)
            requires
                -0x8000_0000_0000_0000 <= x <= 0x7fff_ffff_ffff_ffff,
                0 < y <= 0x7fff_ffff_ffff_ffff,
        {
        }
    }
    if x > 0 && y > 0 {
        assert(x * y > 0) by (nonlinear_arith)
            requires
                x > 0,
                y > 0,
        {
        }
    }
}

/// A fraction vanishes exactly when its numerator does, and has its sign.
pub proof fn lemma_quot_sign(n: int, d: int)
    requires
        d > 0,
    ensures
        (quot(n, d) == 0real) == (n == 0),
        (quot(n, d) < 0real) == (n < 0),
        (quot(n, d) > 0real) == (n > 0),
{
    lemma_quot_order(n, d, 0, 1);
    lemma_quot_order(0, 1, n, d);
    lemma_quot_one(0);
}

/// The magnitude of a real number.
pub open spec fn abs_real(x: real) -> real {
    if x < 0real {
        -x
    } else {
        x
    }
}

/// A number on the way of a computation could not be represented.
#[derive(Clone, Copy, Debug, PartialEq, Eq, Structural)]
pub struct Overflow;

/// The one [`Ratio`] of value `x`, if `x` is representable.
pub closed spec fn canonical(x: real) -> Ratio {
    choose|r: Ratio| r.is_lowest() && r@ == x
}

/// The value of the fraction that stands for `x` is `x`.
pub proof fn lemma_canonical_value(x: real)
    requires
        representable(x),
    ensures
        canonical(x)@ == x,
        canonical(x).is_lowest(),
{
    let (n, d) = choose|n: int, d: int| in_range(n, d) && x == #[trigger] quot(n, d);
    let a = abs_int(n);
    let g = gcd(a, d as nat) as int;
    lemma_gcd_divides(a, d as nat);
    lemma_reduced_coprime(a, d as nat);
    lemma_div_exact(a as int, g);
    lemma_div_exact(d, g);
    let a0 = a as int / g;
    let d0 = d / g;
    assert(0 < d0 <= d && 0 <= a0 <= a) by (nonlinear_arith)
        requires
            d == d0 * g,
            a == a0 * g,
            d > 0,
            a >= 0,
            g > 0,
    {
    }
    let n0 = if n < 0 { -a0 } else { a0 };
    assert(n == n0 * g) by (nonlinear_arith)
        requires
            a == a0 * g,
            n0 == if n < 0 { -a0 } else { a0 },
            a == if n < 0 { -n } else { n },
    {
    }
    lemma_quot_scale(n0, d0, g);
    let r = Ratio { num: n0 as i64, den: d0 as i64 };
    assert(abs_int(n0) == a0);
    assert(r.is_lowest() && r@ == x);
}

/// An exact rational number, kept in lowest terms with a positive
/// denominator.
#[derive(Clone, Copy, Debug, PartialEq, Eq)]
pub struct Ratio {
    num: i64,
    den: i64,
}

impl View for Ratio {
    type V = real;

    closed spec fn view(&self) -> real {
        quot(self.num as int, self.den as int)
    }
}

fn gcd_u128(a: u128, b: u128) -> (g: u128)
    ensures
        g == gcd(a as nat, b as nat),
{
    let mut x = a;
    let mut y = b;
    while y != 0
        invariant
            gcd(x as nat, y as nat) == gcd(a as nat, b as nat),
        decreases y,
    {
        let t = x % y;
        x = y;
        y = t;
    }
    x
}

impl Ratio {
    #[verifier::type_invariant]
    spec fn wf(self) -> bool {
        self.is_lowest()
    }

    /// Whether the fraction is in lowest terms over a positive denominator.
    pub closed spec fn is_lowest(self) -> bool {
        self.den > 0 && gcd(abs_int(self.num as int), self.den as nat) == 1
    }

    /// Two fractions in lowest terms that have one value are one fraction.
    pub proof fn lemma_unique(a: Ratio, b: Ratio)
        requires
            a.is_lowest(),
            b.is_lowest(),
            a@ == b@,
        ensures
            a == b,
    {
        let (an, ad, bn, bd) = (a.num as int, a.den as int, b.num as int, b.den as int);
        lemma_quot_order(an, ad, bn, bd);
        lemma_lowest_terms(an, ad, bn, bd);
        lemma_lowest_terms(bn, bd, an, ad);
        assert(ad == bd);
        assert(an == bn) by (nonlinear_arith)
            requires
                an * bd == bn * ad,
                ad == bd,
                ad > 0,
        {
        }
    }

    /// What an exact computation yields is the one fraction of its value.
    proof fn lemma_is_canonical(self)
        requires
            self.is_lowest(),
        ensures
            self == canonical(self@),
    {
        let c = canonical(self@);
        assert(c.is_lowest() && c@ == self@);
        Ratio::lemma_unique(self, c);
    }

    /// The fraction `n / d` in lowest terms, if that fits.
    fn reduce(n: i128, d: i128) -> (r: Option<Ratio>)
        requires
            d > 0,
            n > i128::MIN,
        ensures
            r is Some <==> representable(quot(n as int, d as int)),
            r matches Some(v) ==> v@ == quot(n as int, d as int) && v == canonical(v@),
    {
        let a: u128 = if n < 0 {
            (-n) as u128
        } else {
            n as u128
        };
        let g = gcd_u128(a, d as u128);
        proof {
            lemma_gcd_divides(a as nat, d as nat);
            lemma_reduced_coprime(a as nat, d as nat);
            lemma_div_exact(a as int, g as int);
            lemma_div_exact(d as int, g as int);
        }
        let a0 = a / g;
        let d0 = (d as u128) / g;
        let ghost n0: int = if n < 0 {
            -(a0 as int)
        } else {
            a0 as int
        };
        proof {
            assert(d0 > 0) by (nonlinear_arith)
                requires
                    d == d0 * g,
                    d > 0,
                    g > 0,
            {
            }
            assert(n == n0 * g) by (nonlinear_arith)
                requires
                    a == a0 * g,
                    n0 == if n < 0 { -(a0 as int) } else { a0 as int },
                    a == if n < 0 { -(n as int) } else { n as int },
            {
            }
            lemma_quot_scale(n0, d0 as int, g as int);
        }
        let fits = d0 <= 0x7fff_ffff_ffff_ffff && if n < 0 {
            a0 <= 0x8000_0000_0000_0000
        } else {
            a0 <= 0x7fff_ffff_ffff_ffff
        };
        if fits {
            let num: i64 = if n < 0 {
                if a0 == 0x8000_0000_0000_0000 {
                    i64::MIN
                } else {
                    -(a0 as i64)
                }
            } else {
                a0 as i64
            };
            let v = Ratio { num, den: d0 as i64 };
            assert(in_range(n0, d0 as int));
            assert(v@ == quot(n0, d0 as int));
            proof {
                assert(abs_int(n0) == a0);
                v.lemma_is_canonical();
            }
            Some(v)
        } else {
            proof {
                if representable(quot(n as int, d as int)) {
                    let (m, e) = choose|m: int, e: int|
                        in_range(m, e) && quot(n as int, d as int) == #[trigger] quot(m, e);
                    lemma_quot_order(n as int, d as int, m, e);
                    lemma_lowest_terms(n as int, d as int, m, e);
                    assert((n < 0) == (m < 0)) by (nonlinear_arith)
                        requires
                            n * e == m * d,
                            d > 0,
                            e > 0,
                    {
                    }
                    assert(false);
                }
            }
            None
        }
    }

    /// The fraction `n / d` of two wide integers.
    pub fn from_wide(n: i128, d: i128) -> (r: Option<Ratio>)
        requires
            d > 0,
            n > i128::MIN,
        ensures
            r is Some <==> representable(quot(n as int, d as int)),
            r matches Some(v) ==> v@ == quot(n as int, d as int) && v == canonical(v@),
    {
        Ratio::reduce(n, d)
    }

    /// The fraction `num / den`.
    pub fn new(num: i64, den: i64) -> (r: Option<Ratio>)
        ensures
            r is Some <==> den != 0 && representable(quot(num as int, den as int)),
            r matches Some(v) ==> v@ == quot(num as int, den as int) && v == canonical(v@),
    {
        if den == 0 {
            None
        } else if den > 0 {
            Ratio::reduce(num as i128, den as i128)
        } else {
            proof {
                lemma_quot_neg(num as int, den as int);
            }
            Ratio::reduce(-(num as i128), -(den as i128))
        }
    }

    /// The integer `n`.
    pub fn from_int(n: i64) -> (r: Ratio)
        ensures
            r@ == n as real,
            r == canonical(r@),
    {
        proof {
            lemma_quot_one(n as int);
            reveal_with_fuel(gcd, 3);
        }
        let r = Ratio { num: n, den: 1 };
        proof {
            r.lemma_is_canonical();
        }
        r
    }

    /// Numerator and denominator, the latter positive.
    pub fn parts(&self) -> (r: (i64, i64))
        ensures
            r.1 > 0,
            self@ == quot(r.0 as int, r.1 as int),
            *self == canonical(self@),
    {
        proof {
            use_type_invariant(self);
            self.lemma_is_canonical();
        }
        (self.num, self.den)
    }

    /// The sum, if it can be represented.
    pub fn add(&self, other: &Ratio) -> (r: Option<Ratio>)
        ensures
            r is Some <==> representable(self@ + other@),
            r matches Some(v) ==> v@ == self@ + other@ && v == canonical(v@),
    {
        proof {
            use_type_invariant(self);
            use_type_invariant(other);
            lemma_product_bound(self.num as int, other.den as int);
            lemma_product_bound(other.num as int, self.den as int);
            lemma_product_bound(self.den as int, other.den as int);
            lemma_quot_arith(self.num as int, self.den as int, other.num as int, other.den as int);
        }
        let n = (self.num as i128) * (other.den as i128) + (other.num as i128) * (self.den as i128);
        let d = (self.den as i128) * (other.den as i128);
        Ratio::reduce(n, d)
    }

    /// The difference, if it can be represented.
    pub fn sub(&self, other: &Ratio) -> (r: Option<Ratio>)
        ensures
            r is Some <==> representable(self@ - other@),
            r matches Some(v) ==> v@ == self@ - other@ && v == canonical(v@),
    {
        proof {
            use_type_invariant(self);
            use_type_invariant(other);
            lemma_product_bound(self.num as int, other.den as int);
            lemma_product_bound(other.num as int, self.den as int);
            lemma_product_bound(self.den as int, other.den as int);
            lemma_quot_arith(self.num as int, self.den as int, other.num as int, other.den as int);
        }
        let n = (self.num as i128) * (other.den as i128) - (other.num as i128) * (self.den as i128);
        let d = (self.den as i128) * (other.den as i128);
        Ratio::reduce(n, d)
    }

    /// The product, if it can be represented.
    pub fn mul(&self, other: &Ratio) -> (r: Option<Ratio>)
        ensures
            r is Some <==> representable(self@ * other@),
            r matches Some(v) ==> v@ == self@ * other@ && v == canonical(v@),
    {
        proof {
            use_type_invariant(self);
            use_type_invariant(other);
            lemma_product_bound(self.num as int, other.num as int);
            lemma_product_bound(self.den as int, other.den as int);
            lemma_quot_arith(self.num as int, self.den as int, other.num as int, other.den as int);
        }
        let n = (self.num as i128) * (other.num as i128);
        let d = (self.den as i128) * (other.den as i128);
        Ratio::reduce(n, d)
    }

    /// The quotient, if the divisor is not zero and it can be represented.
    pub fn div(&self, other: &Ratio) -> (r: Option<Ratio>)
        ensures
            r is Some <==> other@ != 0real && representable(self@ / other@),
            r matches Some(v) ==> v@ == self@ / other@ && v == canonical(v@),
    {
        proof {
            use_type_invariant(self);
            use_type_invariant(other);
            lemma_product_bound(self.num as int, other.den as int);
            lemma_product_bound(self.den as int, other.num as int);
            lemma_quot_arith(self.num as int, self.den as int, other.num as int, other.den as int);
            lemma_quot_sign(other.num as int, other.den as int);
        }
        if other.num == 0 {
            None
        } else if other.num > 0 {
            let n = (self.num as i128) * (other.den as i128);
            let d = (self.den as i128) * (other.num as i128);
            Ratio::reduce(n, d)
        } else {
            let n = -((self.num as i128) * (other.den as i128));
            let d = -((self.den as i128) * (other.num as i128));
            assert(d > 0) by (nonlinear_arith)
                requires
                    d == -(self.den * other.num),
                    self.den > 0,
                    other.num < 0,
            {
            }
            Ratio::reduce(n, d)
        }
    }

    /// The number with its sign changed, if it can be represented.
    pub fn neg(&self) -> (r: Option<Ratio>)
        ensures
            r is Some <==> representable(-self@),
            r matches Some(v) ==> v@ == -self@ && v == canonical(v@),
    {
        proof {
            use_type_invariant(self);
            lemma_quot_arith(0, 1, self.num as int, self.den as int);
            lemma_quot_one(0);
        }
        Ratio::reduce(-(self.num as i128), self.den as i128)
    }

    /// The magnitude of the number, if it can be represented.
    pub fn abs(&self) -> (r: Option<Ratio>)
        ensures
            r is Some <==> representable(abs_real(self@)),
            r matches Some(v) ==> v@ == abs_real(self@) && v == canonical(v@),
    {
        if self.is_negative() {
            self.neg()
        } else {
            let (n, d) = self.parts();
            proof {
                assert(in_range(n as int, d as int));
            }
            Some(*self)
        }
    }

    /// Whether `self < other`.
    pub fn lt(&self, other: &Ratio) -> (r: bool)
        ensures
            r == (self@ < other@),
    {
        proof {
            use_type_invariant(self);
            use_type_invariant(other);
            lemma_product_bound(self.num as int, other.den as int);
            lemma_product_bound(other.num as int, self.den as int);
            lemma_quot_order(self.num as int, self.den as int, other.num as int, other.den as int);
        }
        (self.num as i128) * (other.den as i128) < (other.num as i128) * (self.den as i128)
    }

    /// Whether `self <= other`.
    pub fn le(&self, other: &Ratio) -> (r: bool)
        ensures
            r == (self@ <= other@),
    {
        proof {
            use_type_invariant(self);
            use_type_invariant(other);
            lemma_product_bound(self.num as int, other.den as int);
            lemma_product_bound(other.num as int, self.den as int);
            lemma_quot_order(self.num as int, self.den as int, other.num as int, other.den as int);
        }
        (self.num as i128) * (other.den as i128) <= (other.num as i128) * (self.den as i128)
    }

    /// Whether the two numbers are equal.
    pub fn same(&self, other: &Ratio) -> (r: bool)
        ensures
            r == (self@ == other@),
    {
        proof {
            use_type_invariant(self);
            use_type_invariant(other);
            lemma_product_bound(self.num as int, other.den as int);
            lemma_product_bound(other.num as int, self.den as int);
            lemma_quot_order(self.num as int, self.den as int, other.num as int, other.den as int);
        }
        (self.num as i128) * (other.den as i128) == (other.num as i128) * (self.den as i128)
    }

    /// Whether the number is zero.
    pub fn is_zero(&self) -> (r: bool)
        ensures
            r == (self@ == 0real),
    {
        proof {
            use_type_invariant(self);
            lemma_quot_sign(self.num as int, self.den as int);
        }
        self.num == 0
    }

    /// Whether the number is below zero.
    pub fn is_negative(&self) -> (r: bool)
        ensures
            r == (self@ < 0real),
    {
        proof {
            use_type_invariant(self);
            lemma_quot_sign(self.num as int, self.den as int);
        }
        self.num < 0
    }

    /// Whether the number is above zero.
    pub fn is_positive(&self) -> (r: bool)
        ensures
            r == (self@ > 0real),
    {
        proof {
            use_type_invariant(self);
            lemma_quot_sign(self.num as int, self.den as int);
        }
        self.num > 0
    }

    /// The largest integer not above the number.
    pub fn floor(&self) -> (r: i64)
        ensures
            r == self@.floor(),
    {
        proof {
            use_type_invariant(self);
            lemma_quot_floor(self.num as int, self.den as int);
        }
        if self.num >= 0 {
            self.num / self.den
        } else {
            let a = -(self.num as i128);
            let d = self.den as i128;
            proof {
                lemma_floor_negative(a as int, d as int);
            }
            let c = (a + d - 1) / d;
            (-c) as i64
        }
    }
}

} // verus!
