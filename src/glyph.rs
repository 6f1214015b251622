use crate::color::{
    channel_of, hsl_of, lemma_pq_bounds, lemma_round_div_exact, max3, min3, rgb_of, round_div, segment, wrap_turn, Color,
    HslColor,
};
use crate::random::below;
use rand_xoshiro::Xoshiro256PlusPlus;
use vstd::arithmetic::power::pow;
use vstd::prelude::*;

verus! {

/// Number of symbols a glyph is drawn from.
pub const ALPHABET_LEN: usize = 69;

/// The symbols a glyph is drawn from: half-width katakana, digits and
/// punctuation.
pub open spec fn alphabet() -> Seq<char> {
    seq![
        '\u{FF8A}', '\u{FF90}', '\u{FF8B}', '\u{FF70}', '\u{FF73}', '\u{FF7C}', '\u{FF85}', '\u{FF93}',
        '\u{FF86}', '\u{FF7B}', '\u{FF9C}', '\u{FF82}', '\u{FF75}', '\u{FF98}', '\u{FF71}', '\u{FF8E}',
        '\u{FF83}', '\u{FF8F}', '\u{FF79}', '\u{FF92}', '\u{FF74}', '\u{FF76}', '\u{FF77}', '\u{FF91}',
        '\u{FF95}', '\u{FF97}', '\u{FF7E}', '\u{FF88}', '\u{FF7D}', '\u{FF80}', '\u{FF87}', '\u{FF8D}',
        '\u{FF66}', '\u{FF72}', '\u{FF78}', '\u{FF7A}', '\u{FF7F}', '\u{FF81}', '\u{FF84}', '\u{FF89}',
        '\u{FF8C}', '\u{FF94}', '\u{FF96}', '\u{FF99}', '\u{FF9A}', '\u{FF9B}', '\u{FF9D}', '0',
        '1', '2', '3', '4', '5', '7', '8', '9',
        'Z', ':', '.', '"', '=', '*', '+', '-',
        '<', '>', '\u{00A6}', '\u{254C}', '\u{00E7}',
    ]
}

fn alphabet_chars() -> (v: Vec<char>)
    ensures
        v@ == alphabet(),
{
    vec![
        '\u{FF8A}', '\u{FF90}', '\u{FF8B}', '\u{FF70}', '\u{FF73}', '\u{FF7C}', '\u{FF85}', '\u{FF93}',
        '\u{FF86}', '\u{FF7B}', '\u{FF9C}', '\u{FF82}', '\u{FF75}', '\u{FF98}', '\u{FF71}', '\u{FF8E}',
        '\u{FF83}', '\u{FF8F}', '\u{FF79}', '\u{FF92}', '\u{FF74}', '\u{FF76}', '\u{FF77}', '\u{FF91}',
        '\u{FF95}', '\u{FF97}', '\u{FF7E}', '\u{FF88}', '\u{FF7D}', '\u{FF80}', '\u{FF87}', '\u{FF8D}',
        '\u{FF66}', '\u{FF72}', '\u{FF78}', '\u{FF7A}', '\u{FF7F}', '\u{FF81}', '\u{FF84}', '\u{FF89}',
        '\u{FF8C}', '\u{FF94}', '\u{FF96}', '\u{FF99}', '\u{FF9A}', '\u{FF9B}', '\u{FF9D}', '0',
        '1', '2', '3', '4', '5', '7', '8', '9',
        'Z', ':', '.', '"', '=', '*', '+', '-',
        '<', '>', '\u{00A6}', '\u{254C}', '\u{00E7}',
    ]
}

/// The HSL form after one fade: hue kept, saturation and lightness times 4/5.
pub open spec fn fade_hsl(v: HslColor) -> HslColor {
    HslColor {
        h_num: v.h_num,
        h_den: v.h_den,
        s_num: (4 * v.s_num) as u32,
        s_den: (5 * v.s_den) as u32,
        l_num: (4 * v.l_num) as u32,
        l_den: (5 * v.l_den) as u32,
    }
}

/// A color after one fade.
pub open spec fn faded(c: Color) -> Color {
    rgb_of(fade_hsl(hsl_of(c)))
}

/// One terminal cell: a character and its color.
#[derive(Clone, Copy, PartialEq, Eq, Debug, Structural)]
pub struct Glyph {
    pub character: char,
    pub color: Color,
}

/// The unfilled cell: a space with a fully transparent black.
pub open spec fn empty_glyph() -> Glyph {
    Glyph { character: ' ', color: Color { r: 0, g: 0, b: 0, a: 0 } }
}

impl Glyph {
    pub fn new(character: char, color: Color) -> (g: Glyph)
        ensures
            g == (Glyph { character, color }),
    {
        Glyph { character, color }
    }

    pub fn empty() -> (g: Glyph)
        ensures
            g == empty_glyph(),
    {
        Glyph { character: ' ', color: Color::from_rgba(0, 0, 0, 0) }
    }

    /// The glyph with the `index`-th symbol of the alphabet.
    pub fn with_symbol(index: usize, color: Color) -> (g: Glyph)
        requires
            index < ALPHABET_LEN,
        ensures
            g == (Glyph { character: alphabet()[index as int], color }),
    {
        let chars = alphabet_chars();
        Glyph { character: chars[index], color }
    }

    /// A glyph with a symbol drawn uniformly from the alphabet.
    pub fn new_random(rng: &mut Xoshiro256PlusPlus, color: Color) -> (g: Glyph)
        ensures
            g.color == color,
            alphabet().contains(g.character),
    {
        let index = below(rng, ALPHABET_LEN);
        Glyph::with_symbol(index, color)
    }

    /// Dims the color by one step; the character stays.
    pub fn fade_color(&mut self)
        ensures
            final(self).character == old(self).character,
            final(self).color == faded(old(self).color),
    {
        let hsl = self.color.as_hsl();
        let dimmed = HslColor::new(hsl.h_num, hsl.h_den, 4 * hsl.s_num, 5 * hsl.s_den, 4 * hsl.l_num, 5 * hsl.l_den);
        self.color = dimmed.to_rgb();
    }
}

/// One fade keeps the hue and scales saturation and lightness by exactly
/// 4/5, so each drops strictly unless it is already 0.
pub proof fn lemma_fade_scales(c: Color)
    ensures
        fade_hsl(hsl_of(c)).h_num == hsl_of(c).h_num,
        fade_hsl(hsl_of(c)).h_den == hsl_of(c).h_den,
        fade_hsl(hsl_of(c)).s_num == 4 * hsl_of(c).s_num,
        fade_hsl(hsl_of(c)).s_den == 5 * hsl_of(c).s_den,
        fade_hsl(hsl_of(c)).l_num == 4 * hsl_of(c).l_num,
        fade_hsl(hsl_of(c)).l_den == 5 * hsl_of(c).l_den,
        hsl_of(c).s_num > 0 ==> fade_hsl(hsl_of(c)).s_num * hsl_of(c).s_den < hsl_of(c).s_num
            * fade_hsl(hsl_of(c)).s_den,
        hsl_of(c).l_num > 0 ==> fade_hsl(hsl_of(c)).l_num * hsl_of(c).l_den < hsl_of(c).l_num
            * fade_hsl(hsl_of(c)).l_den,
        fade_hsl(hsl_of(c)).wf(),
{
    let v = hsl_of(c);
    let f = fade_hsl(v);
    assert(f.s_num == 4 * v.s_num && f.s_den == 5 * v.s_den);
    assert(f.l_num == 4 * v.l_num && f.l_den == 5 * v.l_den);
    assert(v.s_num > 0 ==> f.s_num * v.s_den < v.s_num * f.s_den) by (nonlinear_arith)
        requires
            f.s_num == 4 * v.s_num,
            f.s_den == 5 * v.s_den,
            v.s_den > 0,
    ;
    assert(v.l_num > 0 ==> f.l_num * v.l_den < v.l_num * f.l_den) by (nonlinear_arith)
        requires
            f.l_num == 4 * v.l_num,
            f.l_den == 5 * v.l_den,
            v.l_den > 0,
    ;
}

/// Lightness of an 8-bit color in units of 1/510: `max + min` of its channels.
pub open spec fn rgb_lightness(c: Color) -> int {
    max3(c.r as int, c.g as int, c.b as int) + min3(c.r as int, c.g as int, c.b as int)
}

/// Rounding `n / d` moves it by at most a half.
proof fn lemma_round_div_close(n: int, d: int)
    requires
        n >= 0,
        d > 0,
    ensures
        -d < 2 * d * round_div(n, d) - 2 * n <= d,
{
    let r = round_div(n, d);
    vstd::arithmetic::div_mod::lemma_fundamental_div_mod(2 * n + d, 2 * d);
    assert(0 <= (2 * n + d) % (2 * d) < 2 * d) by {
        vstd::arithmetic::div_mod::lemma_mod_bound(2 * n + d, 2 * d);
    }
    assert(-d < 2 * d * r - 2 * n <= d) by (nonlinear_arith)
        requires
            2 * n + d == (2 * d) * r + (2 * n + d) % (2 * d),
            0 <= (2 * n + d) % (2 * d) < 2 * d,
    ;
}

/// Rounding keeps order.
proof fn lemma_round_div_ordered(n1: int, n2: int, d: int)
    requires
        0 <= n1 <= n2,
        d > 0,
    ensures
        round_div(n1, d) <= round_div(n2, d),
{
    vstd::arithmetic::div_mod::lemma_div_is_ordered(2 * n1 + d, 2 * n2 + d, 2 * d);
}

/// After one fade the 8-bit lightness is 4/5 of the old one up to one unit:
/// `|5 * new - 4 * old| <= 5`, in units of 1/510. Rounding back to 8 bits can
/// hold a very dark color where it is, so the drop is not always strict.
pub proof fn lemma_fade_lightness(c: Color)
    ensures
        4 * rgb_lightness(c) - 5 <= 5 * rgb_lightness(faded(c)) <= 4 * rgb_lightness(c) + 5,
{
    lemma_fade_scales(c);
    let v = hsl_of(c);
    let f = fade_hsl(v);
    let (r, g, b) = (c.r as int, c.g as int, c.b as int);
    let l = rgb_lightness(c);
    let out = faded(c);
    assert(f.l_num == 400 * l && f.l_den == 2550);
    if f.s_num == 0 {
        let ch = round_div(255 * f.l_num, 100 * f.l_den);
        assert(out.r == ch && out.g == ch && out.b == ch);
        assert(ch == (2 * (255 * (400 * l)) + 255000) / (510000 as int));
        assert(rgb_lightness(out) == 2 * ch);
    } else {
        lemma_pq_bounds(f);
        let hd = f.h_den as int;
        let p = f.p_num();
        let q = f.q_num();
        let u = f.unit();
        let den = u * (60 * hd);
        assert(hd > 0);
        assert(u > 0) by (nonlinear_arith)
            requires
                u == 10000 * f.l_den * f.s_den,
                f.l_den > 0,
                f.s_den > 0,
        ;
        assert(den > 0) by (nonlinear_arith)
            requires
                u > 0,
                hd > 0,
                den == u * (60 * hd),
        ;
        let x_r = segment(wrap_turn(f.h_num + 120 * hd, 360 * hd), hd);
        let x_g = segment(wrap_turn(f.h_num + 0, 360 * hd), hd);
        let x_b = segment(wrap_turn(f.h_num + -120 * hd, 360 * hd), hd);
        assert(0 <= x_r <= 60 * hd && 0 <= x_g <= 60 * hd && 0 <= x_b <= 60 * hd);
        assert(x_r == 60 * hd || x_g == 60 * hd || x_b == 60 * hd);
        assert(x_r == 0 || x_g == 0 || x_b == 0);
        let top = round_div(255 * (p * (60 * hd) + (q - p) * (60 * hd)), den);
        let bottom = round_div(255 * (p * (60 * hd) + (q - p) * 0), den);
        assert forall|x: int| 0 <= x <= 60 * hd implies bottom <= #[trigger] round_div(
            255 * (p * (60 * hd) + (q - p) * x),
            den,
        ) <= top by {
            assert(0 <= 255 * (p * (60 * hd) + (q - p) * 0) <= 255 * (p * (60 * hd) + (q - p) * x)
                <= 255 * (p * (60 * hd) + (q - p) * (60 * hd))) by (nonlinear_arith)
                requires
                    0 <= p <= q,
                    0 <= x <= 60 * hd,
            ;
            lemma_round_div_ordered(255 * (p * (60 * hd) + (q - p) * 0), 255 * (p * (60 * hd) + (q
                - p) * x), den);
            lemma_round_div_ordered(255 * (p * (60 * hd) + (q - p) * x), 255 * (p * (60 * hd) + (q
                - p) * (60 * hd)), den);
        }
        assert(255 * (p * (60 * hd) + (q - p) * (60 * hd)) <= 255 * den) by (nonlinear_arith)
            requires
                0 <= p <= q <= u,
                hd > 0,
                den == u * (60 * hd),
        ;
        lemma_round_div_ordered(255 * (p * (60 * hd) + (q - p) * (60 * hd)), 255 * den, den);
        lemma_round_div_exact(255, den);
        assert(0 <= bottom) by {
            lemma_round_div_ordered(0, 255 * (p * (60 * hd) + (q - p) * 0), den);
        }
        assert(top <= 255);
        assert(out.r as int == channel_of(f, 1) && channel_of(f, 1) == round_div(
            255 * (p * (60 * hd) + (q - p) * x_r),
            den,
        ));
        assert(out.g as int == channel_of(f, 0) && channel_of(f, 0) == round_div(
            255 * (p * (60 * hd) + (q - p) * x_g),
            den,
        ));
        assert(out.b as int == channel_of(f, -1) && channel_of(f, -1) == round_div(
            255 * (p * (60 * hd) + (q - p) * x_b),
            den,
        ));
        assert(rgb_lightness(out) == top + bottom);
        let n_top = 255 * (p * (60 * hd) + (q - p) * (60 * hd));
        let n_bottom = 255 * (p * (60 * hd) + (q - p) * 0);
        assert(n_bottom >= 0 && n_top >= 0) by (nonlinear_arith)
            requires
                0 <= p <= q,
                hd > 0,
                n_top == 255 * (p * (60 * hd) + (q - p) * (60 * hd)),
                n_bottom == 255 * (p * (60 * hd) + (q - p) * 0),
        ;
        lemma_round_div_close(n_top, den);
        lemma_round_div_close(n_bottom, den);
        assert(5 * (n_top + n_bottom) == 4 * l * den) by (nonlinear_arith)
            requires
                n_top == 255 * (p * (60 * hd) + (q - p) * (60 * hd)),
                n_bottom == 255 * (p * (60 * hd) + (q - p) * 0),
                p == 200 * f.l_num * f.s_den - q,
                u == 10000 * f.l_den * f.s_den,
                den == u * (60 * hd),
                f.l_num == 400 * l,
                f.l_den == 2550,
        ;
        assert(4 * l - 5 <= 5 * (top + bottom) <= 4 * l + 5) by (nonlinear_arith)
            requires
                -den < 2 * den * top - 2 * n_top <= den,
                -den < 2 * den * bottom - 2 * n_bottom <= den,
                5 * (n_top + n_bottom) == 4 * l * den,
                den > 0,
        ;
    }
}

/// A color after `n` fades.
pub open spec fn faded_times(c: Color, n: nat) -> Color
    decreases n,
{
    if n == 0 {
        c
    } else {
        faded(faded_times(c, (n - 1) as nat))
    }
}

/// After `n` fades the 8-bit lightness is the old one times `0.8^n`, up to
/// `5 * (1 - 0.8^n)` units of 1/510 (so under 5 units), written without
/// fractions: `|5^n * new - 4^n * old| <= 5 * (5^n - 4^n)`.
pub proof fn lemma_fades_lightness(c: Color, n: nat)
    ensures
        pow(4, n) * rgb_lightness(c) - 5 * (pow(5, n) - pow(4, n)) <= pow(5, n) * rgb_lightness(
            faded_times(c, n),
        ) <= pow(4, n) * rgb_lightness(c) + 5 * (pow(5, n) - pow(4, n)),
    decreases n,
{
    reveal(pow);
    if n > 0 {
        let k = (n - 1) as nat;
        lemma_fades_lightness(c, k);
        let prev = faded_times(c, k);
        lemma_fade_lightness(prev);
        let l0 = rgb_lightness(c);
        let lk = rgb_lightness(prev);
        let ln = rgb_lightness(faded_times(c, n));
        let (a, b) = (pow(5, k), pow(4, k));
        assert(pow(5, n) == 5 * a && pow(4, n) == 4 * b);
        assert(a >= 0) by {
            vstd::arithmetic::power::lemma_pow_positive(5, k);
        }
        assert(4 * b * l0 - 5 * (5 * a - 4 * b) <= 5 * a * ln <= 4 * b * l0 + 5 * (5 * a - 4 * b))
            by (nonlinear_arith)
            requires
                b * l0 - 5 * (a - b) <= a * lk <= b * l0 + 5 * (a - b),
                4 * lk - 5 <= 5 * ln <= 4 * lk + 5,
                a >= 0,
        ;
        assert(pow(5, n) * ln == 5 * a * ln && pow(4, n) * l0 == 4 * b * l0);
    }
}

} // verus!
