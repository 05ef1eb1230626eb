//! Ratios of whole numbers, rounded as binary64 arithmetic rounds them.
//!
//! A rounded ratio is kept as a significand over a power of two, so everything here is exact
//! arithmetic on integers.
use vstd::prelude::*;

verus! {

/// The smallest normalised significand, 2^52.
pub const MIN_SIGNIFICAND: u128 = 0x10_0000_0000_0000;

/// The value `significand / scale`.
#[derive(Debug, Clone, Copy, PartialEq, Eq)]
pub struct Ratio {
    pub significand: u128,
    pub scale: u128,
}

/// `num / den` rounded to the nearest integer, ties to even.
pub open spec fn div_rne(num: int, den: int) -> int {
    let q = num / den;
    let r = num % den;
    if 2 * r < den {
        q
    } else if 2 * r > den {
        q + 1
    } else {
        q + q % 2
    }
}

/// The least power of two that lifts `num / den` to at least 2^52.
pub open spec fn scale_of(num: int, den: int) -> int
    decreases 0x20_0000_0000_0000 * den - num,
{
    if num < 1 || num >= 0x10_0000_0000_0000 * den {
        1
    } else {
        2 * scale_of(2 * num, den)
    }
}

/// The significand of `num / den` rounded to nearest, ties to even.
pub open spec fn significand_of(num: int, den: int) -> int {
    div_rne(num * scale_of(num, den), den)
}

/// The unit in the last place of an integer with more than 53 significant bits.
pub open spec fn unit_of(p: int) -> int
    decreases p,
{
    if p < 2 * MIN_SIGNIFICAND {
        1
    } else {
        2 * unit_of(p / 2)
    }
}

/// The integer `p` rounded to 53 significant bits.
pub open spec fn round53(p: int) -> int {
    div_rne(p, unit_of(p)) * unit_of(p)
}

/// `num / den` rounded to nearest, as significand and scale.
pub open spec fn quot(num: int, den: int) -> (int, int) {
    (significand_of(num, den), scale_of(num, den))
}

/// The rounded product of `v` and `d`, rounded down to an integer.
pub open spec fn product_floor(v: (int, int), d: int) -> int {
    round53(d * v.0) / v.1
}

/// `v` rounded to the nearest integer, ties away from zero.
pub open spec fn nearest(v: (int, int)) -> int {
    (2 * v.0 + v.1) / (2 * v.1)
}

/// The larger of two values. Significands are normalised, so a smaller scale means a larger value.
pub open spec fn larger(a: (int, int), b: (int, int)) -> (int, int) {
    if a.1 < b.1 || (a.1 == b.1 && a.0 >= b.0) {
        a
    } else {
        b
    }
}

/// `w` divided by `v`, rounded to nearest.
pub open spec fn divided(w: int, v: (int, int)) -> (int, int) {
    quot(w * v.1, v.0)
}

impl View for Ratio {
    type V = (int, int);

    open spec fn view(&self) -> (int, int) {
        (self.significand as int, self.scale as int)
    }
}

proof fn lemma_scale_bound(num: int, den: int)
    requires
        num >= 1,
        den >= 1,
    ensures
        scale_of(num, den) >= 1,
        scale_of(num, den) == 1 || num * scale_of(num, den) < 0x20_0000_0000_0000 * den,
        num * scale_of(num, den) >= 0x10_0000_0000_0000 * den,
    decreases 0x20_0000_0000_0000 * den - num,
{
    if num >= 0x10_0000_0000_0000 * den {
    } else {
        lemma_scale_bound(2 * num, den);
        let s = scale_of(2 * num, den);
        assert(2 * num * s == num * (2 * s)) by (nonlinear_arith);
        if s == 1 {
            assert(num * (2 * s) == 2 * num) by (nonlinear_arith)
                requires
                    s == 1,
            ;
        }
    }
}

proof fn lemma_rne_bounds(num: int, den: int)
    requires
        num >= 0,
        den >= 1,
    ensures
        0 <= div_rne(num, den) <= num,
        forall|b: int| num >= b * den ==> #[trigger] (b * den) <= den * div_rne(num, den),
        forall|b: int| num < b * den && b >= 0 ==> div_rne(num, den) * den <= #[trigger] (b * den),
{
    vstd::arithmetic::div_mod::lemma_fundamental_div_mod(num, den);
    let q = num / den;
    let r = num % den;
    assert(q >= 0 && q <= num) by (nonlinear_arith)
        requires
            num == den * q + r,
            0 <= r < den,
            num >= 0,
    ;
    let v = div_rne(num, den);
    assert(v <= num) by {
        if v == q + 1 {
            assert(2 * r >= den);
            assert(q + 1 <= num) by (nonlinear_arith)
                requires
                    num == den * q + r,
                    2 * r >= den,
                    den >= 1,
                    q >= 0,
            ;
        }
    }
    assert forall|b: int| num >= b * den implies #[trigger] (b * den) <= den * v by {
        assert(b <= q) by (nonlinear_arith)
            requires
                num == den * q + r,
                r < den,
                num >= b * den,
                den >= 1,
        ;
        assert(b * den <= den * v) by (nonlinear_arith)
            requires
                b <= q,
                q <= v,
                den >= 1,
        ;
    }
    assert forall|b: int| num < b * den && b >= 0 implies v * den <= #[trigger] (b * den) by {
        assert(q < b) by (nonlinear_arith)
            requires
                num == den * q + r,
                r >= 0,
                num < b * den,
                den >= 1,
        ;
        assert(v * den <= b * den) by (nonlinear_arith)
            requires
                v <= q + 1,
                q < b,
                den >= 1,
        ;
    }
}

/// The ratio of two lengths has a normalised significand.
pub proof fn lemma_ratio_is_normalised(num: int, den: int)
    requires
        1 <= num < 0x1_0000_0000,
        1 <= den,
    ensures
        MIN_SIGNIFICAND <= quot(num, den).0 <= 2 * MIN_SIGNIFICAND,
        1 <= quot(num, den).1,
{
    lemma_normalised(num, den);
}

/// A ratio below 2^52 has a normalised significand.
proof fn lemma_normalised(num: int, den: int)
    requires
        num >= 1,
        den >= 1,
        num < 0x10_0000_0000_0000 * den,
    ensures
        MIN_SIGNIFICAND <= significand_of(num, den) <= 2 * MIN_SIGNIFICAND,
        1 <= scale_of(num, den),
        num * scale_of(num, den) < 0x20_0000_0000_0000 * den,
{
    lemma_scale_bound(num, den);
    let s = scale_of(num, den);
    let n = num * s;
    assert(n == num || n < 0x20_0000_0000_0000 * den) by {
        if s == 1 {
            assert(n == num) by (nonlinear_arith)
                requires
                    n == num * s,
                    s == 1,
            ;
        }
    }
    assert(n >= 0) by (nonlinear_arith)
        requires
            n == num * s,
            num >= 1,
            s >= 1,
    ;
    lemma_rne_bounds(n, den);
    let m = div_rne(n, den);
    let lo = MIN_SIGNIFICAND as int;
    assert((lo * den) <= den * m);
    assert(m >= lo) by (nonlinear_arith)
        requires
            lo * den <= den * m,
            den >= 1,
    ;
    let hi = 2 * MIN_SIGNIFICAND as int;
    assert(m * den <= (hi * den));
    assert(m <= hi) by (nonlinear_arith)
        requires
            m * den <= hi * den,
            den >= 1,
    ;
}

/// `num / den` rounded to the nearest integer, ties to even.
fn round_div(num: u128, den: u128) -> (r: u128)
    requires
        1 <= den <= u128::MAX / 2,
    ensures
        r == div_rne(num as int, den as int),
{
    let q: u128 = num / den;
    let r: u128 = num % den;
    proof {
        lemma_rne_bounds(num as int, den as int);
    }
    if 2 * r < den {
        q
    } else if 2 * r > den {
        q + 1
    } else {
        q + q % 2
    }
}

/// The rounded value of `num / den`.
fn quotient(num: u128, den: u128) -> (r: Ratio)
    requires
        1 <= num,
        1 <= den <= 0x4000_0000_0000_0000,
    ensures
        r@ == quot(num as int, den as int),
{
    let bound: u128 = 0x10_0000_0000_0000 * den;
    let mut n: u128 = num;
    let mut s: u128 = 1;
    while n < bound
        invariant
            1 <= num,
            1 <= s,
            n == num * s,
            s <= n,
            bound == 0x10_0000_0000_0000 * den,
            1 <= den <= 0x4000_0000_0000_0000,
            scale_of(num as int, den as int) == s * scale_of(n as int, den as int),
        decreases 2 * bound - n,
    {
        assert(scale_of(n as int, den as int) == 2 * scale_of(2 * n, den as int));
        assert(s * (2 * scale_of(2 * n, den as int)) == (2 * s) * scale_of(2 * n, den as int))
            by (nonlinear_arith);
        assert(num * (2 * s) == 2 * n) by (nonlinear_arith)
            requires
                n == num * s,
        ;
        n = 2 * n;
        s = 2 * s;
    }
    assert(scale_of(n as int, den as int) == 1);
    assert(s * scale_of(n as int, den as int) == s) by (nonlinear_arith)
        requires
            scale_of(n as int, den as int) == 1,
    ;
    Ratio { significand: round_div(n, den), scale: s }
}

/// The rounded value of `num / den`.
pub fn ratio(num: u32, den: u32) -> (r: Ratio)
    requires
        1 <= num,
        1 <= den,
    ensures
        r@ == quot(num as int, den as int),
        MIN_SIGNIFICAND <= r.significand <= 2 * MIN_SIGNIFICAND,
        1 <= r.scale < 0x20_0000_0000_0000_0000_0000,
{
    let r = quotient(num as u128, den as u128);
    proof {
        lemma_normalised(num as int, den as int);
        let s = r.scale as int;
        assert(s <= num * s) by (nonlinear_arith)
            requires
                num >= 1,
                s >= 1,
        ;
        assert(num * s < 0x20_0000_0000_0000 * den);
        assert(0x20_0000_0000_0000 * den <= 0x20_0000_0000_0000 * 0xffff_ffff);
    }
    r
}

proof fn lemma_unit_bound(p: int)
    requires
        p >= 0,
    ensures
        1 <= unit_of(p),
        unit_of(p) == 1 || unit_of(p) <= p,
    decreases p,
{
    if p < 2 * MIN_SIGNIFICAND {
    } else {
        lemma_unit_bound(p / 2);
    }
}

proof fn lemma_round_bound(p: int, u: int)
    requires
        0 <= p,
        1 <= u,
        u == 1 || u <= p,
    ensures
        0 <= div_rne(p, u) * u <= 2 * p,
{
    lemma_rne_bounds(p, u);
    vstd::arithmetic::div_mod::lemma_fundamental_div_mod(p, u);
    let q = p / u;
    let r = p % u;
    let v = div_rne(p, u);
    assert(v * u <= p + u) by (nonlinear_arith)
        requires
            v <= q + 1,
            p == u * q + r,
            r >= 0,
            u >= 1,
    ;
    assert(v * u >= 0) by (nonlinear_arith)
        requires
            v >= 0,
            u >= 1,
    ;
    if u == 1 {
        assert(v * u <= p) by (nonlinear_arith)
            requires
                u == 1,
                v <= p,
        ;
    }
}

impl Ratio {
    /// The rounded product of this value and `d`, rounded down to an integer.
    pub fn product_floor_of(&self, d: u32) -> (r: u128)
        requires
            self.significand <= 2 * MIN_SIGNIFICAND,
            1 <= self.scale,
        ensures
            r == product_floor(self@, d as int),
    {
        proof {
            let (a, b) = (d as int, self.significand as int);
            assert(0 <= a * b <= 0xffff_ffff * (2 * MIN_SIGNIFICAND)) by (nonlinear_arith)
                requires
                    0 <= a <= 0xffff_ffff,
                    0 <= b <= 2 * MIN_SIGNIFICAND,
            ;
        }
        let p: u128 = d as u128 * self.significand;
        let mut u: u128 = 1;
        let mut n: u128 = p;
        while n >= 2 * MIN_SIGNIFICAND
            invariant
                1 <= u,
                unit_of(p as int) == u * unit_of(n as int),
                u * n <= p,
                p <= 0xffff_ffff * (2 * MIN_SIGNIFICAND),
            decreases n,
        {
            assert(u * (2 * unit_of((n / 2) as int)) == (2 * u) * unit_of((n / 2) as int))
                by (nonlinear_arith);
            assert((2 * u) * (n / 2) <= u * n) by (nonlinear_arith)
                requires
                    u >= 1,
                    n >= 0,
            ;
            assert(2 * u <= (2 * u) * (n / 2)) by (nonlinear_arith)
                requires
                    u >= 1,
                    n >= 2,
            ;
            n = n / 2;
            u = 2 * u;
        }
        assert(u * unit_of(n as int) == u) by (nonlinear_arith)
            requires
                unit_of(n as int) == 1,
        ;
        proof {
            lemma_unit_bound(p as int);
            lemma_round_bound(p as int, u as int);
        }
        round_div(p, u) * u / self.scale
    }

    /// This value rounded to the nearest integer, ties away from zero.
    pub fn nearest_int(&self) -> (r: u128)
        requires
            self.significand <= u128::MAX / 4,
            1 <= self.scale <= u128::MAX / 4,
        ensures
            r == nearest(self@),
    {
        (2 * self.significand + self.scale) / (2 * self.scale)
    }

    /// The larger of two values.
    pub fn max_of(&self, other: &Ratio) -> (r: Ratio)
        ensures
            r@ == larger(self@, other@),
    {
        if self.scale < other.scale || (self.scale == other.scale && self.significand
            >= other.significand) {
            *self
        } else {
            *other
        }
    }

    /// `w` divided by this value.
    pub fn divide(&self, w: u32) -> (r: Ratio)
        requires
            1 <= w,
            MIN_SIGNIFICAND <= self.significand <= 2 * MIN_SIGNIFICAND,
            1 <= self.scale < 0x20_0000_0000_0000_0000_0000,
        ensures
            r@ == divided(w as int, self@),
            r.significand <= u128::MAX / 4,
            1 <= r.scale <= u128::MAX / 4,
    {
        let n: u128 = {
            proof {
                let (a, b) = (w as int, self.scale as int);
                assert(1 <= a * b <= 0xffff_ffff * 0x20_0000_0000_0000_0000_0000) by (nonlinear_arith)
                    requires
                        1 <= a <= 0xffff_ffff,
                        1 <= b <= 0x20_0000_0000_0000_0000_0000,
                ;
            }
            w as u128 * self.scale
        };
        let r = quotient(n, self.significand);
        proof {
            let (num, den) = (n as int, self.significand as int);
            lemma_scale_bound(num, den);
            let s = r.scale as int;
            assert(s <= num * s) by (nonlinear_arith)
                requires
                    num >= 1,
                    s >= 1,
            ;
            assert(0 <= num * s) by (nonlinear_arith)
                requires
                    num >= 1,
                    s >= 1,
            ;
            if s == 1 {
                assert(num * s == num) by (nonlinear_arith)
                    requires
                        s == 1,
                ;
            }
            lemma_rne_bounds(num * s, den);
        }
        r
    }
}

/// Dividing by a value of at least one, and rounding, does not make a length larger.
pub proof fn lemma_divided_is_smaller(len: int, v: (int, int))
    requires
        1 <= len,
        1 <= v.1 <= v.0,
    ensures
        nearest(divided(len, v)) <= len,
{
    let (num, den) = (len * v.1, v.0);
    assert(num >= 1) by (nonlinear_arith)
        requires
            num == len * v.1,
            len >= 1,
            v.1 >= 1,
    ;
    lemma_scale_bound(num, den);
    let t = scale_of(num, den);
    let m = div_rne(num * t, den);
    let b = len * t;
    assert(num * t <= b * den) by (nonlinear_arith)
        requires
            num == len * v.1,
            v.1 <= den,
            b == len * t,
            len >= 1,
            t >= 1,
    ;
    assert(num * t >= 0 && b >= 0) by (nonlinear_arith)
        requires
            num >= 1,
            t >= 1,
            len >= 1,
            b == len * t,
    ;
    lemma_rne_bounds(num * t, den);
    assert(m <= b) by {
        if num * t < b * den {
            assert(m <= b) by (nonlinear_arith)
                requires
                    m * den <= b * den,
                    den >= 1,
            ;
        } else {
            vstd::arithmetic::div_mod::lemma_div_multiples_vanish(b, den);
            vstd::arithmetic::div_mod::lemma_mod_multiples_basic(b, den);
            assert(den * b == b * den) by (nonlinear_arith);
        }
    }
    assert((2 * m + t) / (2 * t) <= len) by (nonlinear_arith)
        requires
            m <= len * t,
            t >= 1,
    ;
}

/// The power-of-two scales of two ratios differ by a factor of two at least, or not at all.
proof fn lemma_scale_is_power(num: int, den: int)
    requires
        num >= 1,
        den >= 1,
    ensures
        exists|e: nat| scale_of(num, den) == #[trigger] vstd::arithmetic::power2::pow2(e),
    decreases 0x20_0000_0000_0000 * den - num,
{
    vstd::arithmetic::power2::lemma2_to64();
    if num >= 0x10_0000_0000_0000 * den {
        assert(scale_of(num, den) == vstd::arithmetic::power2::pow2(0));
    } else {
        lemma_scale_is_power(2 * num, den);
        let e = choose|e: nat| scale_of(2 * num, den) == #[trigger] vstd::arithmetic::power2::pow2(e);
        vstd::arithmetic::power2::lemma_pow2_unfold(e + 1);
        assert(scale_of(num, den) == vstd::arithmetic::power2::pow2(e + 1));
    }
}

/// `larger` picks a value that is at least as large as either, for ratios below 2^52.
pub proof fn law_larger_is_maximum(an: int, ad: int, bn: int, bd: int)
    requires
        1 <= an < 0x10_0000_0000_0000 * ad,
        1 <= bn < 0x10_0000_0000_0000 * bd,
        1 <= ad,
        1 <= bd,
    ensures
        ({
            let (a, b) = (quot(an, ad), quot(bn, bd));
            let m = larger(a, b);
            m.0 * a.1 >= a.0 * m.1 && m.0 * b.1 >= b.0 * m.1
        }),
{
    let (a, b) = (quot(an, ad), quot(bn, bd));
    lemma_normalised(an, ad);
    lemma_normalised(bn, bd);
    lemma_scale_is_power(an, ad);
    lemma_scale_is_power(bn, bd);
    let e = choose|e: nat| scale_of(an, ad) == #[trigger] vstd::arithmetic::power2::pow2(e);
    let f = choose|f: nat| scale_of(bn, bd) == #[trigger] vstd::arithmetic::power2::pow2(f);
    lemma_doubling(e, f);
    lemma_doubling(f, e);
    if a.1 < b.1 {
        assert(a.0 * b.1 >= b.0 * a.1) by (nonlinear_arith)
            requires
                2 * a.1 <= b.1,
                a.1 >= 1,
                0x10_0000_0000_0000 <= a.0,
                b.0 <= 0x20_0000_0000_0000,
        ;
    } else if b.1 < a.1 {
        assert(b.0 * a.1 >= a.0 * b.1) by (nonlinear_arith)
            requires
                2 * b.1 <= a.1,
                b.1 >= 1,
                0x10_0000_0000_0000 <= b.0,
                a.0 <= 0x20_0000_0000_0000,
        ;
    } else if a.0 >= b.0 {
        assert(a.0 * b.1 >= b.0 * a.1) by (nonlinear_arith)
            requires
                a.1 == b.1,
                b.1 >= 1,
                a.0 >= b.0,
        ;
    } else {
        assert(b.0 * a.1 >= a.0 * b.1) by (nonlinear_arith)
            requires
                a.1 == b.1,
                b.1 >= 1,
                a.0 <= b.0,
        ;
    }
}

proof fn lemma_doubling(e: nat, f: nat)
    ensures
        vstd::arithmetic::power2::pow2(e) < vstd::arithmetic::power2::pow2(f) ==> 2
            * vstd::arithmetic::power2::pow2(e) <= vstd::arithmetic::power2::pow2(f),
{
    if e < f {
        vstd::arithmetic::power2::lemma_pow2_unfold(e + 1);
        if e + 1 < f {
            vstd::arithmetic::power2::lemma_pow2_strictly_increases(e + 1, f);
        }
    } else if f < e {
        vstd::arithmetic::power2::lemma_pow2_strictly_increases(f, e);
    }
}

/// The unit of an integer is a power of two, and small next to it.
proof fn lemma_unit_is_power(p: int)
    requires
        p >= 0,
    ensures
        exists|e: nat| unit_of(p) == #[trigger] vstd::arithmetic::power2::pow2(e),
        unit_of(p) == 1 || 0x10_0000_0000_0000 * unit_of(p) <= p,
    decreases p,
{
    vstd::arithmetic::power2::lemma2_to64();
    if p < 2 * MIN_SIGNIFICAND {
        assert(unit_of(p) == vstd::arithmetic::power2::pow2(0));
    } else {
        lemma_unit_is_power(p / 2);
        let e = choose|e: nat| unit_of(p / 2) == #[trigger] vstd::arithmetic::power2::pow2(e);
        vstd::arithmetic::power2::lemma_pow2_unfold(e + 1);
        assert(unit_of(p) == vstd::arithmetic::power2::pow2(e + 1));
    }
}

/// A power of two that is at least twice another is an even multiple of it.
proof fn lemma_even_multiple(e: nat, f: nat) -> (k: int)
    requires
        2 * vstd::arithmetic::power2::pow2(e) <= vstd::arithmetic::power2::pow2(f),
    ensures
        vstd::arithmetic::power2::pow2(f) == 2 * k * vstd::arithmetic::power2::pow2(e),
        k >= 1,
{
    vstd::arithmetic::power2::lemma_pow2_pos(e);
    vstd::arithmetic::power2::lemma_pow2_pos(f);
    if f <= e {
        if f < e {
            vstd::arithmetic::power2::lemma_pow2_strictly_increases(f, e);
        }
        0
    } else {
        let d = (f - e) as nat;
        vstd::arithmetic::power2::lemma_pow2_adds(d, e);
        vstd::arithmetic::power2::lemma_pow2_unfold(d);
        let k = vstd::arithmetic::power2::pow2((d - 1) as nat) as int;
        vstd::arithmetic::power2::lemma_pow2_pos((d - 1) as nat);
        k
    }
}

/// Rounding to a multiple of `u` moves a number by half of `u` at most, and a number that is no
/// more than that below an even multiple does not end up below it.
proof fn lemma_round_to_multiple(p: int, u: int, k: int)
    requires
        p >= 0,
        u >= 1,
    ensures
        2 * (div_rne(p, u) * u - p) <= u,
        2 * (p - div_rne(p, u) * u) <= u,
        2 * (2 * k * u - p) <= u ==> div_rne(p, u) * u >= 2 * k * u,
{
    vstd::arithmetic::div_mod::lemma_fundamental_div_mod(p, u);
    let q = p / u;
    let r = p % u;
    let v = div_rne(p, u);
    assert(q * u == u * q) by (nonlinear_arith);
    assert((q + 1) * u == u * q + u) by (nonlinear_arith);
    if 2 * (2 * k * u - p) <= u {
        assert(2 * k * u == u * (2 * k)) by (nonlinear_arith);
        if q < 2 * k - 1 {
            assert(u * q + u * 2 <= u * (2 * k)) by (nonlinear_arith)
                requires
                    q + 2 <= 2 * k,
                    u >= 1,
            ;
            assert(false);
        }
        if q == 2 * k - 1 {
            assert(u * q + u == u * (2 * k)) by (nonlinear_arith)
                requires
                    q + 1 == 2 * k,
            ;
            assert(v == q + 1);
        } else {
            assert(u * q >= u * (2 * k)) by (nonlinear_arith)
                requires
                    q >= 2 * k,
                    u >= 1,
            ;
            assert(v * u >= u * q) by (nonlinear_arith)
                requires
                    v >= q,
                    u >= 1,
            ;
        }
    }
}

/// Facts about the ratio of a larger to a smaller length: its value is at least one, and its scale
/// is large next to the units in which its products are rounded.
proof fn lemma_shrinking_ratio(src: int, dst: int, d: int)
    requires
        1 <= dst <= src < 0x1_0000_0000,
        0 <= d <= dst,
    ensures
        ({
            let (m, s) = quot(src, dst);
            &&& s >= 1
            &&& s <= m <= 0x20_0000_0000_0000
            &&& 0x10_0000 * dst <= s
            &&& 0 <= d * m
            &&& 2 * (d * m) <= 2 * src * s + dst
            &&& 2 * unit_of(d * m) <= s
            &&& exists|k: int|
                k >= 1 && s == #[trigger] (2 * k * unit_of(d * m))
        }),
{
    let (m, s) = quot(src, dst);
    lemma_normalised(src, dst);
    lemma_scale_bound(src, dst);
    let n = src * s;
    assert(n >= 0x10_0000_0000_0000 * dst);
    assert(s >= 0x10_0000 * dst) by (nonlinear_arith)
        requires
            src * s >= 0x10_0000_0000_0000 * dst,
            src < 0x1_0000_0000,
            s >= 1,
            dst >= 1,
    ;
    assert(n >= 0) by (nonlinear_arith)
        requires
            n == src * s,
            src >= 1,
            s >= 1,
    ;
    lemma_rne_bounds(n, dst);
    assert((s * dst) <= n) by (nonlinear_arith)
        requires
            n == src * s,
            dst <= src,
            s >= 1,
    ;
    assert((s * dst) <= dst * m);
    assert(s <= m) by (nonlinear_arith)
        requires
            s * dst <= dst * m,
            dst >= 1,
    ;
    lemma_round_to_multiple(n, dst, 0);
    assert(0 <= d * m && d * m <= m * dst) by (nonlinear_arith)
        requires
            0 <= d <= dst,
            m >= 1,
    ;
    assert(2 * (m * dst - n) <= dst);
    assert(2 * src * s == 2 * n) by (nonlinear_arith)
        requires
            n == src * s,
    ;
    let p = d * m;
    let u = unit_of(p);
    lemma_unit_is_power(p);
    lemma_scale_is_power(src, dst);
    assert(n <= 0x1_0000_0000 * s) by (nonlinear_arith)
        requires
            n == src * s,
            src <= 0x1_0000_0000,
            s >= 1,
    ;
    assert(2 * u <= s);
    let e = choose|e: nat| u == #[trigger] vstd::arithmetic::power2::pow2(e);
    let f = choose|f: nat| s == #[trigger] vstd::arithmetic::power2::pow2(f);
    let k = lemma_even_multiple(e, f);
    assert(s == 2 * k * unit_of(d * m));
}

/// In a shrinking ratio, the product with `d + 1` is at least one more than the product with `d`.
proof fn lemma_products_advance(src: int, dst: int, d: int)
    requires
        1 <= dst <= src < 0x1_0000_0000,
        0 <= d < dst,
    ensures
        product_floor(quot(src, dst), d) + 1 <= product_floor(quot(src, dst), d + 1),
        0 <= product_floor(quot(src, dst), d),
{
    let v = quot(src, dst);
    let (m, s) = v;
    lemma_shrinking_ratio(src, dst, d);
    lemma_shrinking_ratio(src, dst, d + 1);
    let p = d * m;
    let q = (d + 1) * m;
    assert(q == p + m) by (nonlinear_arith)
        requires
            p == d * m,
            q == (d + 1) * m,
    ;
    let (u, w) = (unit_of(p), unit_of(q));
    lemma_unit_bound(p);
    lemma_unit_bound(q);
    lemma_unit_grows(p, q);
    lemma_round_to_multiple(p, u, 0);
    let rp = round53(p);
    let n = rp / s;
    lemma_round_bound(p, u);
    vstd::arithmetic::div_mod::lemma_fundamental_div_mod(rp, s);
    assert(n >= 0) by (nonlinear_arith)
        requires
            rp == s * n + rp % s,
            rp % s < s,
            rp >= 0,
            s >= 1,
    ;
    let k = choose|k: int| k >= 1 && s == #[trigger] (2 * k * w);
    let kk = (n + 1) * k;
    assert(2 * kk * w == (n + 1) * s) by (nonlinear_arith)
        requires
            kk == (n + 1) * k,
            s == 2 * k * w,
    ;
    assert(s * n + s == (n + 1) * s) by (nonlinear_arith);
    lemma_round_to_multiple(q, w, kk);
    let rq = round53(q);
    assert(2 * (2 * kk * w - q) <= w);
    assert(rq >= (n + 1) * s);
    assert(rq / s >= n + 1) by (nonlinear_arith)
        requires
            rq >= (n + 1) * s,
            s >= 1,
    ;
}

proof fn lemma_unit_grows(p: int, q: int)
    requires
        0 <= p <= q,
    ensures
        unit_of(p) <= unit_of(q),
    decreases q,
{
    lemma_unit_bound(q);
    if p >= 2 * MIN_SIGNIFICAND {
        lemma_unit_grows(p / 2, q / 2);
    }
}

/// A shrinking ratio times its denominator never exceeds its numerator.
proof fn lemma_product_ends(src: int, dst: int)
    requires
        1 <= dst <= src < 0x1_0000_0000,
    ensures
        product_floor(quot(src, dst), dst) <= src,
{
    let (m, s) = quot(src, dst);
    lemma_shrinking_ratio(src, dst, dst);
    let p = dst * m;
    let u = unit_of(p);
    lemma_unit_bound(p);
    lemma_round_to_multiple(p, u, 0);
    let r = round53(p);
    assert(2 * (src * s) == 2 * src * s) by (nonlinear_arith);
    assert(r < (src + 1) * s) by {
        assert((src + 1) * s == src * s + s) by (nonlinear_arith);
    }
    assert(r / s <= src) by (nonlinear_arith)
        requires
            r < (src + 1) * s,
            s >= 1,
    ;
}

proof fn lemma_products_stay_below(src: int, dst: int, d: int)
    requires
        1 <= dst <= src < 0x1_0000_0000,
        0 <= d <= dst,
    ensures
        product_floor(quot(src, dst), d) + (dst - d) <= product_floor(quot(src, dst), dst),
    decreases dst - d,
{
    if d < dst {
        lemma_products_advance(src, dst, d);
        lemma_products_stay_below(src, dst, d + 1);
    }
}

/// When a length shrinks, every part of it is covered by at least one line: the products with
/// neighbouring numbers differ by one at least, and stay within the length.
pub proof fn law_shrinking_leaves_no_gap(src: int, dst: int, d: int)
    requires
        1 <= dst <= src < 0x1_0000_0000,
        0 <= d < dst,
    ensures
        0 <= product_floor(quot(src, dst), d) < product_floor(quot(src, dst), d + 1) <= src,
{
    lemma_products_advance(src, dst, d);
    lemma_products_stay_below(src, dst, d + 1);
    lemma_product_ends(src, dst);
}

/// A length `w` divided by its ratio to `a`, or by anything larger, is `a` at most after rounding.
pub proof fn lemma_divided_fits(w: int, a: int, v: (int, int))
    requires
        1 <= w < 0x1_0000_0000,
        1 <= a < 0x1_0000_0000,
        0x10_0000_0000_0000 <= v.0,
        1 <= v.1,
        v.0 * quot(w, a).1 >= quot(w, a).0 * v.1,
    ensures
        nearest(divided(w, v)) <= a,
{
    let (m1, s1) = quot(w, a);
    let (m, s) = v;
    lemma_normalised(w, a);
    let n1 = w * s1;
    assert(n1 >= 0) by (nonlinear_arith)
        requires
            n1 == w * s1,
            w >= 1,
            s1 >= 1,
    ;
    lemma_round_to_multiple(n1, a, 0);
    assert(2 * (n1 - m1 * a) <= a);
    let n = w * s;
    assert(n >= 1) by (nonlinear_arith)
        requires
            n == w * s,
            w >= 1,
            s >= 1,
    ;
    // n / m is at most a little above a
    assert(n * m1 <= m * n1) by (nonlinear_arith)
        requires
            n == w * s,
            n1 == w * s1,
            m * s1 >= m1 * s,
            w >= 1,
    ;
    assert(2 * n1 <= 2 * (a * m1) + a) by (nonlinear_arith)
        requires
            2 * (n1 - m1 * a) <= a,
    ;
    let c: int = 0x20_0000;
    assert(c * n <= m * (c * a + 1)) by (nonlinear_arith)
        requires
            c == 0x20_0000,
            n * m1 <= m * n1,
            2 * n1 <= 2 * (a * m1) + a,
            a <= 0x1_0000_0000,
            m1 >= 0x10_0000_0000_0000,
            m >= 1,
            a >= 1,
            n >= 1,
    {
        assert(c * (n * m1) <= c * (m * n1)) by (nonlinear_arith)
            requires
                n * m1 <= m * n1,
                c >= 0,
        ;
        assert(c * n1 <= c * (a * m1) + 0x10_0000 * a);
        assert(0x10_0000 * a <= m1);
        assert(c * n1 <= m1 * (c * a + 1)) by (nonlinear_arith)
            requires
                c * n1 <= c * (a * m1) + 0x10_0000 * a,
                0x10_0000 * a <= m1,
        ;
        assert(m * (c * n1) <= m * (m1 * (c * a + 1))) by (nonlinear_arith)
            requires
                c * n1 <= m1 * (c * a + 1),
                m >= 1,
        ;
        assert((c * n) * m1 <= (m * (c * a + 1)) * m1) by (nonlinear_arith)
            requires
                c * (n * m1) <= c * (m * n1),
                m * (c * n1) <= m * (m1 * (c * a + 1)),
        ;
        assert(c * n <= m * (c * a + 1)) by (nonlinear_arith)
            requires
                (c * n) * m1 <= (m * (c * a + 1)) * m1,
                m1 >= 1,
        ;
    }
    lemma_scale_bound(n, m);
    let t = scale_of(n, m);
    assert(n * t >= 0x10_0000_0000_0000 * m);
    assert(t >= 2) by (nonlinear_arith)
        requires
            n * t >= 0x10_0000_0000_0000 * m,
            c * n <= m * (c * a + 1),
            c == 0x20_0000,
            a < 0x1_0000_0000,
            t >= 1,
            m >= 1,
            n >= 1,
    {
        if t == 1 {
            assert(n >= 0x10_0000_0000_0000 * m) by (nonlinear_arith)
                requires
                    n * t >= 0x10_0000_0000_0000 * m,
                    t == 1,
            ;
            assert(m * (c * a + 1) <= m * (0x20_0000 * 0x1_0000_0000)) by (nonlinear_arith)
                requires
                    c * a + 1 <= 0x20_0000 * 0x1_0000_0000,
                    m >= 1,
            ;
            assert(false);
        }
    }
    let nt = n * t;
    assert(nt >= 0) by (nonlinear_arith)
        requires
            nt == n * t,
            n >= 1,
            t >= 1,
    ;
    lemma_round_to_multiple(nt, m, 0);
    let g = div_rne(nt, m);
    assert(2 * (g * m - nt) <= m);
    assert(c * nt <= t * (m * (c * a + 1))) by (nonlinear_arith)
        requires
            nt == n * t,
            c * n <= m * (c * a + 1),
            t >= 1,
    ;
    assert(2 * c * g <= 2 * t * (c * a + 1) + c) by (nonlinear_arith)
        requires
            2 * (g * m - nt) <= m,
            c * nt <= t * (m * (c * a + 1)),
            m >= 1,
            c >= 1,
    {
        assert(2 * c * (g * m) <= 2 * (c * nt) + c * m) by (nonlinear_arith)
            requires
                2 * (g * m - nt) <= m,
                c >= 1,
        ;
        assert((2 * c * g) * m <= (2 * t * (c * a + 1) + c) * m) by (nonlinear_arith)
            requires
                2 * c * (g * m) <= 2 * (c * nt) + c * m,
                c * nt <= t * (m * (c * a + 1)),
        ;
        assert(2 * c * g <= 2 * t * (c * a + 1) + c) by (nonlinear_arith)
            requires
                (2 * c * g) * m <= (2 * t * (c * a + 1) + c) * m,
                m >= 1,
        ;
    }
    assert(2 * g < t * (2 * a + 1)) by (nonlinear_arith)
        requires
            2 * c * g <= 2 * t * (c * a + 1) + c,
            c == 0x20_0000,
            t >= 2,
    ;
    assert((2 * g + t) / (2 * t) <= a) by (nonlinear_arith)
        requires
            2 * g < t * (2 * a + 1),
            t >= 1,
    ;
}

/// A length whose rounded ratio to `a` is one at most is not longer than `a`.
pub proof fn lemma_small_ratio_fits(w: int, a: int)
    requires
        1 <= w < 0x1_0000_0000,
        1 <= a < 0x1_0000_0000,
        quot(w, a).0 <= quot(w, a).1,
    ensures
        w <= a,
{
    if w > a {
        let (m1, s1) = quot(w, a);
        lemma_shrinking_ratio(w, a, 0);
        let n1 = w * s1;
        assert(n1 >= 0) by (nonlinear_arith)
            requires
                n1 == w * s1,
                w >= 1,
                s1 >= 1,
        ;
        lemma_round_to_multiple(n1, a, 0);
        assert(2 * (n1 - m1 * a) <= a);
        assert(n1 >= (a + 1) * s1) by (nonlinear_arith)
            requires
                n1 == w * s1,
                w >= a + 1,
                s1 >= 1,
        ;
        assert((a + 1) * s1 == a * s1 + s1) by (nonlinear_arith);
        assert(m1 * a <= a * s1) by (nonlinear_arith)
            requires
                m1 <= s1,
                a >= 1,
        ;
        assert(false);
    }
}

/// The products of a shrinking ratio follow the exact ones: the floor of `d * src / dst` comes out,
/// or, where that division leaves no remainder, perhaps one less.
pub proof fn law_products_follow_the_exact_ones(src: int, dst: int, d: int)
    requires
        1 <= dst <= src < 0x1_0000_0000,
        dst <= 0x1_0000,
        0 <= d <= dst,
    ensures
        ({
            let f = product_floor(quot(src, dst), d);
            f * dst <= d * src <= (f + 1) * dst
        }),
{
    let (m, s) = quot(src, dst);
    lemma_shrinking_ratio(src, dst, d);
    lemma_scale_bound(src, dst);
    let n = src * s;
    assert(n >= 0) by (nonlinear_arith)
        requires
            n == src * s,
            src >= 1,
            s >= 1,
    ;
    lemma_round_to_multiple(n, dst, 0);
    let p = d * m;
    let u = unit_of(p);
    lemma_unit_bound(p);
    lemma_unit_is_power(p);
    assert(u <= 0x2_0001) by (nonlinear_arith)
        requires
            u == 1 || 0x10_0000_0000_0000 * u <= p,
            p == d * m,
            0 <= d <= 0x1_0000,
            0 <= m <= 0x20_0000_0000_0000,
    ;
    lemma_round_to_multiple(p, u, 0);
    let r = round53(p);
    let f = r / s;
    vstd::arithmetic::div_mod::lemma_fundamental_div_mod(r, s);
    let rest = r % s;
    assert(2 * (d * (m * dst)) <= 2 * (d * n) + d * dst && 2 * (d * (m * dst)) >= 2 * (d * n) - d
        * dst) by (nonlinear_arith)
        requires
            2 * (m * dst - n) <= dst,
            2 * (n - m * dst) <= dst,
            d >= 0,
    ;
    assert(d * (m * dst) == p * dst) by (nonlinear_arith)
        requires
            p == d * m,
    ;
    assert(2 * (r * dst) <= 2 * (p * dst) + u * dst && 2 * (r * dst) >= 2 * (p * dst) - u * dst)
        by (nonlinear_arith)
        requires
            2 * (r - p) <= u,
            2 * (p - r) <= u,
            dst >= 1,
    ;
    assert(u * dst + d * dst < 2 * s) by (nonlinear_arith)
        requires
            u <= 0x2_0001,
            d <= 0x1_0000,
            0x10_0000 * dst <= s,
            dst >= 1,
    ;
    assert(d * n == (d * src) * s) by (nonlinear_arith)
        requires
            n == src * s,
    ;
    assert((f * dst) * s <= r * dst && r * dst < ((f + 1) * dst) * s) by (nonlinear_arith)
        requires
            r == s * f + rest,
            0 <= rest < s,
            dst >= 1,
    ;
    let (a, b, c) = (f * dst, d * src, (f + 1) * dst);
    assert(a < b + 1) by (nonlinear_arith)
        requires
            a * s < b * s + s,
            s >= 1,
    ;
    assert(b < c + 1) by (nonlinear_arith)
        requires
            b * s < c * s + s,
            s >= 1,
    ;
}

/// A length divided by the ratio of `w` to `a` is the exact quotient `len * a / w`, rounded to the
/// nearest integer: a fit to `a` keeps the proportions of a picture.
pub proof fn law_fits_keep_the_proportions(w: int, a: int, len: int)
    requires
        1 <= w <= 0x2000,
        1 <= len <= 0x2000,
        1 <= a < 0x1_0000_0000,
        nearest(divided(len, quot(w, a))) <= 0x1_0000_0000,
    ensures
        ({
            let n = nearest(divided(len, quot(w, a)));
            -w <= 2 * (n * w - len * a) <= w
        }),
{
    let (m, s) = quot(w, a);
    lemma_normalised(w, a);
    lemma_scale_bound(w, a);
    let ws = w * s;
    assert(ws >= 0x10_0000_0000_0000 * a);
    assert(s >= 0x80_0000_0000 * a) by (nonlinear_arith)
        requires
            w * s >= 0x10_0000_0000_0000 * a,
            w <= 0x2000,
            s >= 1,
            a >= 1,
    ;
    lemma_round_to_multiple(ws, a, 0);
    let num = len * s;
    assert(num >= 1) by (nonlinear_arith)
        requires
            num == len * s,
            len >= 1,
            s >= 1,
    ;
    lemma_scale_bound(num, m);
    let t = scale_of(num, m);
    let nt = num * t;
    assert(nt >= 0) by (nonlinear_arith)
        requires
            nt == num * t,
            num >= 1,
            t >= 1,
    ;
    lemma_round_to_multiple(nt, m, 0);
    let q = div_rne(nt, m);
    let n = (2 * q + t) / (2 * t);
    assert(n == nearest(divided(len, quot(w, a))));
    lemma_rne_bounds(nt, m);
    vstd::arithmetic::div_mod::lemma_fundamental_div_mod(2 * q + t, 2 * t);
    let rest = (2 * q + t) % (2 * t);
    assert(2 * (t * n) <= 2 * q + t && 2 * q < 2 * (t * n) + t) by (nonlinear_arith)
        requires
            2 * q + t == 2 * t * n + rest,
            0 <= rest < 2 * t,
    ;
    // t is large, since n is not
    assert(0x20_0000_0000_0000 * m <= 2 * (q * m) + m);
    assert(0x20_0000_0000_0000 <= 2 * q + 1) by (nonlinear_arith)
        requires
            0x20_0000_0000_0000 * m <= 2 * (q * m) + m,
            m >= 1,
    ;
    assert(t >= 0x1_0000) by (nonlinear_arith)
        requires
            0x20_0000_0000_0000 <= 2 * q + 1,
            2 * q < 2 * (t * n) + t,
            n <= 0x1_0000_0000,
            t >= 1,
    ;
    // the distance, times 2 t m
    assert(2 * ((t * n) * m) <= 2 * (q * m) + t * m && 2 * (q * m) <= 2 * ((t * n) * m) + t * m)
        by (nonlinear_arith)
        requires
            2 * (t * n) <= 2 * q + t,
            2 * q < 2 * (t * n) + t,
            m >= 1,
    ;
    assert(2 * ((t * n) * m) <= 2 * nt + m + t * m);
    assert(2 * nt <= 2 * ((t * n) * m) + m + t * m);
    assert(nt == t * num && (t * n) * m == t * (n * m)) by (nonlinear_arith)
        requires
            nt == num * t,
    ;
    let nm = n * m;
    assert(t * (2 * nm - 2 * num - m) <= m) by (nonlinear_arith)
        requires
            2 * (t * nm) <= 2 * (t * num) + m + t * m,
    ;
    assert(t * (2 * num - 2 * nm - m) <= m) by (nonlinear_arith)
        requires
            2 * (t * num) <= 2 * (t * nm) + m + t * m,
    ;
    let e: int = m / 0x1_0000 + 1;
    assert(2 * nm - 2 * num - m <= e) by (nonlinear_arith)
        requires
            t * (2 * nm - 2 * num - m) <= m,
            t >= 0x1_0000,
            e == m / 0x1_0000 + 1,
            m >= 1,
    ;
    assert(2 * num - 2 * nm - m <= e) by (nonlinear_arith)
        requires
            t * (2 * num - 2 * nm - m) <= m,
            t >= 0x1_0000,
            e == m / 0x1_0000 + 1,
            m >= 1,
    ;
    lemma_distance(w, a, len, n, m, s, e);
}

/// The last steps of the estimate: from a distance in units of the ratio to one in pixels.
proof fn lemma_distance(w: int, a: int, len: int, n: int, m: int, s: int, e: int)
    requires
        1 <= w <= 0x2000,
        1 <= len <= 0x2000,
        1 <= a < 0x1_0000_0000,
        0 <= n <= 0x1_0000_0000,
        s >= 0x80_0000_0000 * a,
        w * s >= 0x10_0000_0000_0000 * a,
        2 * (m * a - w * s) <= a,
        2 * (w * s - m * a) <= a,
        m >= 1,
        e == m / 0x1_0000 + 1,
        2 * (n * m) - 2 * (len * s) - m <= e,
        2 * (len * s) - 2 * (n * m) - m <= e,
    ensures
        -w <= 2 * (n * w - len * a) <= w,
{
    let (x, y) = (n * w, len * a);
    let ma = m * a;
    let ws = w * s;
    assert(2 * (n * ma) - 2 * (y * s) - ma <= e * a && 2 * (y * s) - 2 * (n * ma) - ma <= e * a)
        by (nonlinear_arith)
        requires
            2 * (n * m) - 2 * (len * s) - m <= e,
            2 * (len * s) - 2 * (n * m) - m <= e,
            a >= 1,
            ma == m * a,
            y == len * a,
    ;
    assert(2 * (n * ma) - 2 * (n * ws) <= n * a && 2 * (n * ws) - 2 * (n * ma) <= n * a)
        by (nonlinear_arith)
        requires
            2 * (ma - ws) <= a,
            2 * (ws - ma) <= a,
            n >= 0,
    ;
    assert(n * ws == x * s) by (nonlinear_arith)
        requires
            ws == w * s,
            x == n * w,
    ;
    assert(0x1_0000 * (e * a) <= ma + 0x1_0000 * a) by (nonlinear_arith)
        requires
            e == m / 0x1_0000 + 1,
            ma == m * a,
            a >= 1,
            m >= 1,
    ;
    assert(n * a * 0x10_0000 <= 0x10_0000_0000_0000 * a) by (nonlinear_arith)
        requires
            0 <= n <= 0x1_0000_0000,
            a >= 1,
    ;
    assert(n * a * 0x10_0000 <= ws);
    assert(ws <= 0x2000 * s) by (nonlinear_arith)
        requires
            ws == w * s,
            1 <= w <= 0x2000,
            s >= 1,
    ;
    assert(n * a * 0x80 <= s);
    assert(2 * (x * s) - 2 * (y * s) < ws + s);
    assert(2 * (y * s) - 2 * (x * s) < ws + s);
    assert(2 * x - 2 * y < w + 1) by (nonlinear_arith)
        requires
            2 * (x * s) - 2 * (y * s) < ws + s,
            ws == w * s,
            s >= 1,
    ;
    assert(2 * y - 2 * x < w + 1) by (nonlinear_arith)
        requires
            2 * (y * s) - 2 * (x * s) < ws + s,
            ws == w * s,
            s >= 1,
    ;
}

/// A length that is not longer than another has a rounded ratio of one at most to it.
pub proof fn lemma_ratio_of_smaller(w: int, a: int)
    requires
        1 <= w <= a,
    ensures
        quot(w, a).0 <= quot(w, a).1,
{
    lemma_scale_bound(w, a);
    let s = scale_of(w, a);
    let n = w * s;
    assert(0 <= n <= s * a) by (nonlinear_arith)
        requires
            n == w * s,
            1 <= w <= a,
            s >= 1,
    ;
    lemma_rne_bounds(n, a);
    if n == s * a {
        vstd::arithmetic::div_mod::lemma_div_multiples_vanish(s, a);
        vstd::arithmetic::div_mod::lemma_mod_multiples_basic(s, a);
        assert(a * s == s * a) by (nonlinear_arith);
    } else {
        let m = div_rne(n, a);
        assert(m <= s) by (nonlinear_arith)
            requires
                m * a <= s * a,
                a >= 1,
        ;
    }
}

/// The number of source pixels per destination pixel, in 16.16 fixed point: the exact ratio rounded
/// to the nearest integer.
pub proof fn law_steps_are_exact(src: int, dst: int)
    requires
        1 <= src < 0x1_0000_0000,
        1 <= dst,
    ensures
        ({
            let q = quot(src, dst);
            let n = nearest((q.0 * 0x1_0000, q.1));
            -dst <= 2 * (n * dst - 0x1_0000 * src) <= dst
        }),
{
    let (m, s) = quot(src, dst);
    lemma_normalised(src, dst);
    lemma_scale_bound(src, dst);
    let ss = src * s;
    assert(ss >= 0x10_0000_0000_0000 * dst);
    lemma_round_to_multiple(ss, dst, 0);
    let p = m * 0x1_0000;
    let n = nearest((p, s));
    vstd::arithmetic::div_mod::lemma_fundamental_div_mod(2 * p + s, 2 * s);
    let rest = (2 * p + s) % (2 * s);
    assert(2 * (s * n) <= 2 * p + s && 2 * p < 2 * (s * n) + s) by (nonlinear_arith)
        requires
            2 * p + s == 2 * s * n + rest,
            0 <= rest < 2 * s,
    ;
    let x = n * dst;
    assert(2 * (s * x) <= 0x2_0000 * (m * dst) + s * dst && 0x2_0000 * (m * dst) <= 2 * (s * x) + s
        * dst) by (nonlinear_arith)
        requires
            2 * (s * n) <= 2 * p + s,
            2 * p < 2 * (s * n) + s,
            p == m * 0x1_0000,
            x == n * dst,
            dst >= 1,
    ;
    assert(0x10_0000 * dst <= s) by (nonlinear_arith)
        requires
            src * s >= 0x10_0000_0000_0000 * dst,
            1 <= src < 0x1_0000_0000,
            s >= 1,
            dst >= 1,
    ;
    assert(2 * x - 0x2_0000 * src - dst < 1) by (nonlinear_arith)
        requires
            2 * (s * x) <= 0x2_0000 * (m * dst) + s * dst,
            2 * (m * dst - ss) <= dst,
            ss == src * s,
            0x10_0000 * dst <= s,
            s >= 1,
    ;
    assert(0x2_0000 * src - 2 * x - dst < 1) by (nonlinear_arith)
        requires
            0x2_0000 * (m * dst) <= 2 * (s * x) + s * dst,
            2 * (ss - m * dst) <= dst,
            ss == src * s,
            0x10_0000 * dst <= s,
            s >= 1,
    ;
}

} // verus!
