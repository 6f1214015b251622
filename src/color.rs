use vstd::arithmetic::div_mod::lemma_fundamental_div_mod_converse_div;
use vstd::prelude::*;

verus! {

/// An 8-bit RGBA color. Alpha only tells an empty cell (alpha 0) from an
/// opaque one.
#[derive(Clone, Copy, PartialEq, Eq, Debug, Structural)]
pub struct Color {
    pub r: u8,
    pub g: u8,
    pub b: u8,
    pub a: u8,
}

/// A color in HSL form, each component an exact fraction:
/// hue `h_num / h_den` degrees, saturation `s_num / s_den` percent,
/// lightness `l_num / l_den` percent.
#[derive(Clone, Copy, Debug)]
pub struct HslColor {
    pub h_num: u32,
    pub h_den: u32,
    pub s_num: u32,
    pub s_den: u32,
    pub l_num: u32,
    pub l_den: u32,
}

pub open spec fn max3(a: int, b: int, c: int) -> int {
    if a >= b && a >= c {
        a
    } else if b >= c {
        b
    } else {
        c
    }
}

pub open spec fn min3(a: int, b: int, c: int) -> int {
    if a <= b && a <= c {
        a
    } else if b <= c {
        b
    } else {
        c
    }
}

/// Hue of a chromatic color in sixths of a turn, scaled by `max - min`.
pub open spec fn hue_sixths(r: int, g: int, b: int) -> int {
    let d = max3(r, g, b) - min3(r, g, b);
    if max3(r, g, b) == r {
        if g < b {
            g - b + 6 * d
        } else {
            g - b
        }
    } else if max3(r, g, b) == g {
        b - r + 2 * d
    } else {
        r - g + 4 * d
    }
}

/// The HSL form of a color: lightness `(max + min) / 2`, saturation and hue by
/// the usual min/max-channel derivation, all in exact fractions.
pub open spec fn hsl_of(c: Color) -> HslColor {
    let (r, g, b) = (c.r as int, c.g as int, c.b as int);
    let hi = max3(r, g, b);
    let lo = min3(r, g, b);
    let sum = hi + lo;
    let d = hi - lo;
    if d == 0 {
        HslColor { h_num: 0, h_den: 1, s_num: 0, s_den: 1, l_num: (100 * sum) as u32, l_den: 510 }
    } else {
        let s_den = if sum > 255 { 510 - sum } else { sum };
        HslColor {
            h_num: (60 * hue_sixths(r, g, b)) as u32,
            h_den: d as u32,
            s_num: (100 * d) as u32,
            s_den: s_den as u32,
            l_num: (100 * sum) as u32,
            l_den: 510,
        }
    }
}

impl HslColor {
    /// Denominators positive, hue in [0, 360), saturation and lightness in [0, 100].
    pub open spec fn wf(&self) -> bool {
        &&& self.h_den > 0
        &&& self.s_den > 0
        &&& self.l_den > 0
        &&& self.h_num < 360 * self.h_den
        &&& self.s_num <= 100 * self.s_den
        &&& self.l_num <= 100 * self.l_den
    }

    /// Common denominator of `q` and `p` below: `10000 * l_den * s_den`.
    pub open spec fn unit(&self) -> int {
        10000 * self.l_den * self.s_den
    }

    /// `q` of the HSL-to-RGB conversion, over `unit()`.
    pub open spec fn q_num(&self) -> int {
        let (ln, ld, sn, sd) = (self.l_num as int, self.l_den as int, self.s_num as int, self.s_den as int);
        if 2 * ln < 100 * ld {
            ln * (100 * sd + sn)
        } else {
            100 * ln * sd + 100 * sn * ld - ln * sn
        }
    }

    /// `p = 2l - q`, over `unit()`.
    pub open spec fn p_num(&self) -> int {
        200 * (self.l_num as int) * (self.s_den as int) - self.q_num()
    }

    pub fn new(h_num: u32, h_den: u32, s_num: u32, s_den: u32, l_num: u32, l_den: u32) -> (v: HslColor)
        ensures
            v == (HslColor { h_num, h_den, s_num, s_den, l_num, l_den }),
    {
        HslColor { h_num, h_den, s_num, s_den, l_num, l_den }
    }
}

/// Brings a hue position (a full turn is `turn`) back into [0, turn].
pub open spec fn wrap_turn(t: int, turn: int) -> int {
    let t1 = if t < 0 { t + turn } else { t };
    if t1 > turn { t1 - turn } else { t1 }
}

/// Weight of `q - p` at hue position `t` (a full turn is `360 * h_den`),
/// over `60 * h_den`.
pub open spec fn segment(t: int, h_den: int) -> int {
    if t < 60 * h_den {
        t
    } else if t < 180 * h_den {
        60 * h_den
    } else if t < 240 * h_den {
        240 * h_den - t
    } else {
        0
    }
}

/// `n / d` rounded to the nearest integer, halves upward.
pub open spec fn round_div(n: int, d: int) -> int {
    (2 * n + d) / (2 * d)
}

/// One channel of the HSL-to-RGB conversion, as an integer in [0, 255];
/// `shift` is the hue offset of the channel in thirds of a turn.
pub open spec fn channel_of(v: HslColor, shift: int) -> int {
    let hd = v.h_den as int;
    if v.s_num == 0 {
        round_div(255 * v.l_num, 100 * v.l_den)
    } else {
        let offset = if shift > 0 {
            120 * hd
        } else if shift < 0 {
            -120 * hd
        } else {
            0
        };
        let t = wrap_turn(v.h_num + offset, 360 * hd);
        round_div(
            255 * (v.p_num() * (60 * hd) + (v.q_num() - v.p_num()) * segment(t, hd)),
            v.unit() * (60 * hd),
        )
    }
}

/// The RGB form of an HSL color: opaque, each channel rounded to 8 bits.
pub open spec fn rgb_of(v: HslColor) -> Color {
    Color {
        r: channel_of(v, 1) as u8,
        g: channel_of(v, 0) as u8,
        b: channel_of(v, -1) as u8,
        a: 255,
    }
}

impl Color {
    pub fn from_rgba(r: u8, g: u8, b: u8, a: u8) -> (c: Color)
        ensures
            c == (Color { r, g, b, a }),
    {
        Color { r, g, b, a }
    }

    pub fn from_rgb(r: u8, g: u8, b: u8) -> (c: Color)
        ensures
            c == (Color { r, g, b, a: 255 }),
    {
        Color::from_rgba(r, g, b, 255)
    }

    pub fn as_hsl(&self) -> (v: HslColor)
        ensures
            v == hsl_of(*self),
            v.wf(),
    {
        let (r, g, b) = (self.r as u32, self.g as u32, self.b as u32);
        let hi: u32 = if r >= g && r >= b {
            r
        } else if g >= b {
            g
        } else {
            b
        };
        let lo: u32 = if r <= g && r <= b {
            r
        } else if g <= b {
            g
        } else {
            b
        };
        let sum: u32 = hi + lo;
        let d: u32 = hi - lo;
        if d == 0 {
            return HslColor::new(0, 1, 0, 1, 100 * sum, 510);
        }
        let s_den: u32 = if sum > 255 { 510 - sum } else { sum };
        let sixths: u32 = if hi == r {
            if g < b {
                6 * d - (b - g)
            } else {
                g - b
            }
        } else if hi == g {
            2 * d + b - r
        } else {
            4 * d + r - g
        };
        HslColor::new(60 * sixths, d, 100 * d, s_den, 100 * sum, 510)
    }
}

/// `q` and `p` as the conversion computes them lie in [0, unit], with `p <= q`.
pub proof fn lemma_pq_bounds(v: HslColor)
    requires
        v.wf(),
    ensures
        0 <= v.p_num() <= v.q_num() <= v.unit(),
        v.unit() <= 10000 * 0xFFFF_FFFF * 0xFFFF_FFFF,
        2 * v.l_num < 100 * v.l_den ==> v.p_num() == v.l_num * (100 * v.s_den - v.s_num),
        2 * v.l_num >= 100 * v.l_den ==> v.p_num() == 100 * (v.l_num * v.s_den) - v.s_num * (100
            * v.l_den - v.l_num),
{
    let (ln, ld, sn, sd) = (v.l_num as int, v.l_den as int, v.s_num as int, v.s_den as int);
    assert(v.unit() <= 10000 * 0xFFFF_FFFF * 0xFFFF_FFFF) by (nonlinear_arith)
        requires
            v.unit() == 10000 * ld * sd,
            0 < ld <= 0xFFFF_FFFF,
            0 < sd <= 0xFFFF_FFFF,
    ;
    if 2 * ln < 100 * ld {
        assert(0 <= v.p_num() <= v.q_num() <= v.unit() && v.p_num() == ln * (100 * sd - sn))
            by (nonlinear_arith)
            requires
                v.q_num() == ln * (100 * sd + sn),
                v.p_num() == 200 * ln * sd - v.q_num(),
                v.unit() == 10000 * ld * sd,
                2 * ln < 100 * ld,
                0 <= ln,
                0 <= sn <= 100 * sd,
        ;
    } else {
        assert(0 <= v.p_num() <= v.q_num() <= v.unit() && v.p_num() == 100 * (ln * sd) - sn * (100
            * ld - ln)) by (nonlinear_arith)
            requires
                v.q_num() == 100 * ln * sd + 100 * sn * ld - ln * sn,
                v.p_num() == 200 * ln * sd - v.q_num(),
                v.unit() == 10000 * ld * sd,
                2 * ln >= 100 * ld,
                ln <= 100 * ld,
                0 <= ln,
                0 <= sn <= 100 * sd,
        ;
    }
}

/// One channel: `p + (q - p) * segment / (60 * h_den)` over `unit`, scaled to
/// 255 and rounded.
fn rgb_channel(p: u128, diff: u128, unit: u128, hd: u128, t: u128) -> (c: u8)
    requires
        p + diff <= unit,
        0 < unit <= 10000 * 0xFFFF_FFFF * 0xFFFF_FFFF,
        0 < hd <= 0xFFFF_FFFF,
        t <= 360 * hd,
    ensures
        c as int == round_div(255 * (p * (60 * hd) + diff * segment(t as int, hd as int)), unit * (60
            * hd)),
{
    let hd60 = 60 * hd;
    let x: u128 = if t < hd60 {
        t
    } else if t < 3 * hd60 {
        hd60
    } else if t < 4 * hd60 {
        4 * hd60 - t
    } else {
        0
    };
    assert(x == segment(t as int, hd as int));
    assert(0 <= p * hd60 + diff * x <= unit * hd60 && unit * hd60 <= 10000 * 0xFFFF_FFFF
        * 0xFFFF_FFFF * (60 * 0xFFFF_FFFF) && 0 < unit * hd60) by (nonlinear_arith)
        requires
            p + diff <= unit,
            0 < unit <= 10000 * 0xFFFF_FFFF * 0xFFFF_FFFF,
            0 < hd60 <= 60 * 0xFFFF_FFFF,
            x <= hd60,
    ;
    let num = p * hd60 + diff * x;
    let den = unit * hd60;
    let r = (510 * num + den) / (2 * den);
    assert(r <= 255) by (nonlinear_arith)
        requires
            r == (510 * num + den) / (2 * den),
            0 <= num <= den,
            0 < den,
    ;
    r as u8
}

impl HslColor {
    /// The RGB form of this color.
    pub fn to_rgb(&self) -> (c: Color)
        requires
            self.wf(),
        ensures
            c == rgb_of(*self),
    {
        let (hn, hd, sn, sd, ln, ld) = (
            self.h_num as u128,
            self.h_den as u128,
            self.s_num as u128,
            self.s_den as u128,
            self.l_num as u128,
            self.l_den as u128,
        );
        if sn == 0 {
            let v = (510 * ln + 100 * ld) / (200 * ld);
            assert(v <= 255) by (nonlinear_arith)
                requires
                    v == (510 * ln + 100 * ld) / (200 * ld),
                    ln <= 100 * ld,
                    0 < ld,
            ;
            let v = v as u8;
            return Color::from_rgb(v, v, v);
        }
        proof {
            lemma_pq_bounds(*self);
        }
        assert(ln * sd <= 0xFFFF_FFFF * 0xFFFF_FFFF && sn * ld <= 0xFFFF_FFFF * 0xFFFF_FFFF && ln
            * sn <= 0xFFFF_FFFF * 0xFFFF_FFFF && 0 < 10000 * ld * sd) by (nonlinear_arith)
            requires
                ln <= 0xFFFF_FFFF,
                sd <= 0xFFFF_FFFF,
                sn <= 0xFFFF_FFFF,
                ld <= 0xFFFF_FFFF,
                0 < ld,
                0 < sd,
        ;
        let unit = 10000 * ld * sd;
        let (p, diff) = if 2 * ln < 100 * ld {
            assert(ln * sn <= ln * (100 * sd)) by (nonlinear_arith)
                requires
                    sn <= 100 * sd,
            ;
            (ln * (100 * sd - sn), 2 * (ln * sn))
        } else {
            assert(sn * (100 * ld - ln) <= 100 * (ln * sd)) by (nonlinear_arith)
                requires
                    sn <= 100 * sd,
                    100 * ld - ln <= ln,
                    0 <= 100 * ld - ln,
            ;
            let p = 100 * (ln * sd) - sn * (100 * ld - ln);
            (p, 2 * (sn * (100 * ld - ln)))
        };
        assert(p == self.p_num() && p + diff == self.q_num()) by (nonlinear_arith)
            requires
                2 * ln < 100 * ld ==> p == ln * (100 * sd - sn) && diff == 2 * (ln * sn),
                2 * ln >= 100 * ld ==> p == 100 * (ln * sd) - sn * (100 * ld - ln) && diff == 2 * (
                sn * (100 * ld - ln)),
                2 * ln < 100 * ld ==> self.p_num() == ln * (100 * sd - sn),
                2 * ln >= 100 * ld ==> self.p_num() == 100 * (ln * sd) - sn * (100 * ld - ln),
                self.p_num() == 200 * ln * sd - self.q_num(),
        ;
        let turn = 360 * hd;
        let t_r = if hn + 120 * hd > turn {
            hn + 120 * hd - turn
        } else {
            hn + 120 * hd
        };
        let t_b = if hn < 120 * hd {
            hn + 240 * hd
        } else {
            hn - 120 * hd
        };
        assert(unit == self.unit());
        let r = rgb_channel(p, diff, unit, hd, t_r);
        let g = rgb_channel(p, diff, unit, hd, hn);
        let b = rgb_channel(p, diff, unit, hd, t_b);
        assert(r == channel_of(*self, 1));
        assert(g == channel_of(*self, 0));
        assert(b == channel_of(*self, -1));
        Color::from_rgb(r, g, b)
    }
}

/// A multiple of `den`, divided by `den` and rounded, gives the factor back.
pub proof fn lemma_round_div_exact(ch: int, den: int)
    requires
        den > 0,
    ensures
        round_div(ch * den, den) == ch,
{
    assert(2 * (ch * den) + den == ch * (2 * den) + den) by (nonlinear_arith);
    lemma_fundamental_div_mod_converse_div(2 * (ch * den) + den, 2 * den, ch, den);
}

/// A chromatic channel whose hue weight is `60 * (ch - lo)` comes out as `ch`
/// when `p` and `q` stand for `lo` and `hi`.
proof fn lemma_channel_exact(p: int, q: int, unit: int, hd: int, x: int, lo: int, hi: int, ch: int)
    requires
        255 * p == lo * unit,
        255 * q == hi * unit,
        hd == hi - lo,
        hd > 0,
        unit > 0,
        x == 60 * (ch - lo),
    ensures
        round_div(255 * (p * (60 * hd) + (q - p) * x), unit * (60 * hd)) == ch,
{
    assert(255 * (p * (60 * hd) + (q - p) * x) == ch * (unit * (60 * hd))) by (nonlinear_arith)
        requires
            255 * p == lo * unit,
            255 * q == hi * unit,
            hd == hi - lo,
            x == 60 * (ch - lo),
    ;
    assert(unit * (60 * hd) > 0) by (nonlinear_arith)
        requires
            hd > 0,
            unit > 0,
    ;
    lemma_round_div_exact(ch, unit * (60 * hd));
}

/// `p` and `q` of the HSL form of a chromatic color stand for its smallest
/// and largest channel.
proof fn lemma_pq_of(c: Color)
    requires
        max3(c.r as int, c.g as int, c.b as int) != min3(c.r as int, c.g as int, c.b as int),
    ensures
        255 * hsl_of(c).q_num() == max3(c.r as int, c.g as int, c.b as int) * hsl_of(c).unit(),
        255 * hsl_of(c).p_num() == min3(c.r as int, c.g as int, c.b as int) * hsl_of(c).unit(),
        hsl_of(c).unit() > 0,
{
    let v = hsl_of(c);
    let hi = max3(c.r as int, c.g as int, c.b as int);
    let lo = min3(c.r as int, c.g as int, c.b as int);
    let sum = hi + lo;
    let d = hi - lo;
    let sd = v.s_den as int;
    assert(v.l_num == 100 * sum && v.l_den == 510 && v.s_num == 100 * d);
    assert(sum > 255 ==> sd == 510 - sum);
    assert(sum <= 255 ==> sd == sum);
    assert(0 < sd <= 510);
    assert(v.unit() == 10000 * 510 * sd) by (nonlinear_arith)
        requires
            v.unit() == 10000 * v.l_den * v.s_den,
            v.l_den == 510,
            sd == v.s_den,
    ;
    if sum < 255 {
        assert(v.q_num() == 100 * sum * (100 * sum + 100 * d));
        assert(255 * v.q_num() == hi * v.unit() && 255 * v.p_num() == lo * v.unit())
            by (nonlinear_arith)
            requires
                v.q_num() == 100 * sum * (100 * sum + 100 * d),
                v.p_num() == 200 * (100 * sum) * sd - v.q_num(),
                v.unit() == 10000 * 510 * sd,
                sd == sum,
                sum == hi + lo,
                d == hi - lo,
        ;
    } else {
        assert(v.q_num() == 100 * (100 * sum) * sd + 100 * (100 * d) * 510 - (100 * sum) * (100
            * d));
        assert(255 * v.q_num() == hi * v.unit() && 255 * v.p_num() == lo * v.unit())
            by (nonlinear_arith)
            requires
                v.q_num() == 100 * (100 * sum) * sd + 100 * (100 * d) * 510 - (100 * sum) * (100
                    * d),
                v.p_num() == 200 * (100 * sum) * sd - v.q_num(),
                v.unit() == 10000 * 510 * sd,
                sum > 255 ==> sd == 510 - sum,
                sum == 255 ==> sd == 255,
                sum >= 255,
                sum == hi + lo,
                d == hi - lo,
        ;
    }
    assert(v.unit() > 0);
}

/// Converting a color to HSL and back gives its channels exactly, opaque:
/// the fractions are exact, so rounding never moves a channel.
pub proof fn lemma_round_trip(c: Color)
    ensures
        rgb_of(hsl_of(c)) == (Color { r: c.r, g: c.g, b: c.b, a: 255 }),
{
    let v = hsl_of(c);
    let (r, g, b) = (c.r as int, c.g as int, c.b as int);
    let hi = max3(r, g, b);
    let lo = min3(r, g, b);
    let d = hi - lo;
    if d == 0 {
        assert(r == g && g == b);
        assert(v.l_num == 200 * r && v.l_den == 510);
        assert(255 * v.l_num == r * (100 * v.l_den)) by (nonlinear_arith)
            requires
                v.l_num == 200 * r,
                v.l_den == 510,
        ;
        lemma_round_div_exact(r, 100 * v.l_den);
        lemma_round_div_exact(g, 100 * v.l_den);
        lemma_round_div_exact(b, 100 * v.l_den);
    } else {
        lemma_pq_of(c);
        let hd = v.h_den as int;
        assert(hd == d && v.s_num != 0);
        assert(v.h_num == 60 * hue_sixths(r, g, b));
        let x_r = segment(wrap_turn(v.h_num + 120 * hd, 360 * hd), hd);
        let x_g = segment(wrap_turn(v.h_num + 0, 360 * hd), hd);
        let x_b = segment(wrap_turn(v.h_num + -120 * hd, 360 * hd), hd);
        assert(x_r == 60 * (r - lo));
        assert(x_g == 60 * (g - lo));
        assert(x_b == 60 * (b - lo));
        lemma_channel_exact(v.p_num(), v.q_num(), v.unit(), hd, x_r, lo, hi, r);
        lemma_channel_exact(v.p_num(), v.q_num(), v.unit(), hd, x_g, lo, hi, g);
        lemma_channel_exact(v.p_num(), v.q_num(), v.unit(), hd, x_b, lo, hi, b);
    }
}

/// A gray (all three channels equal) has hue 0 and saturation 0.
pub proof fn lemma_achromatic(c: Color)
    requires
        c.r == c.g && c.g == c.b,
    ensures
        hsl_of(c).h_num == 0,
        hsl_of(c).s_num == 0,
{
}

} // verus!
