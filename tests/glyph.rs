use matrix_rain::color::Color;
use matrix_rain::glyph::{Glyph, ALPHABET_LEN};
use rand_xoshiro::rand_core::SeedableRng;
use rand_xoshiro::Xoshiro256PlusPlus;

const SYMBOLS: &str = "\u{FF8A}\u{FF90}\u{FF8B}\u{FF70}\u{FF73}\u{FF7C}\u{FF85}\u{FF93}\u{FF86}\u{FF7B}\u{FF9C}\u{FF82}\u{FF75}\u{FF98}\u{FF71}\u{FF8E}\u{FF83}\u{FF8F}\u{FF79}\u{FF92}\u{FF74}\u{FF76}\u{FF77}\u{FF91}\u{FF95}\u{FF97}\u{FF7E}\u{FF88}\u{FF7D}\u{FF80}\u{FF87}\u{FF8D}\u{FF66}\u{FF72}\u{FF78}\u{FF7A}\u{FF7F}\u{FF81}\u{FF84}\u{FF89}\u{FF8C}\u{FF94}\u{FF96}\u{FF99}\u{FF9A}\u{FF9B}\u{FF9D}012345789Z:.\"=*+-<>\u{00A6}\u{254C}\u{00E7}";

#[test]
fn empty_glyph_is_transparent_space() {
    let g = Glyph::empty();
    assert_eq!(g.character, ' ');
    assert_eq!(g.color, Color::from_rgba(0, 0, 0, 0));
}

#[test]
fn new_glyph_keeps_fields() {
    let g = Glyph::new('Z', Color::from_rgb(1, 2, 3));
    assert_eq!(g.character, 'Z');
    assert_eq!(g.color, Color::from_rgb(1, 2, 3));
}

#[test]
fn alphabet_size_and_order() {
    assert_eq!(SYMBOLS.chars().count(), ALPHABET_LEN);
    for (i, ch) in SYMBOLS.chars().enumerate() {
        assert_eq!(Glyph::with_symbol(i, Color::from_rgb(0, 0, 0)).character, ch);
    }
}

#[test]
fn random_glyphs_come_from_the_alphabet() {
    let mut rng = Xoshiro256PlusPlus::seed_from_u64(7);
    let color = Color::from_rgb(0, 255, 43);
    let mut seen = std::collections::HashSet::new();
    for _ in 0..2000 {
        let g = Glyph::new_random(&mut rng, color);
        assert!(SYMBOLS.contains(g.character));
        assert_eq!(g.color, color);
        seen.insert(g.character);
    }
    // the draw is not stuck on one symbol
    assert!(seen.len() > 40);
}

#[test]
fn fade_of_base_green() {
    let mut g = Glyph::new('Z', Color::from_rgb(0, 255, 43));
    g.fade_color();
    assert_eq!(g.character, 'Z');
    assert_eq!(g.color, Color::from_rgb(20, 184, 48));
}

#[test]
fn repeated_fades_of_base_green() {
    let mut g = Glyph::new('1', Color::from_rgb(0, 255, 43));
    let expected = [(20, 184, 48), (29, 134, 47), (32, 99, 43), (31, 74, 38)];
    for (r, gr, b) in expected {
        g.fade_color();
        assert_eq!(g.color, Color::from_rgb(r, gr, b));
    }
}

#[test]
fn fade_of_white_and_black() {
    let mut w = Glyph::new('1', Color::from_rgb(255, 255, 255));
    w.fade_color();
    assert_eq!(w.color, Color::from_rgb(204, 204, 204));
    let mut e = Glyph::empty();
    e.fade_color();
    assert_eq!(e.character, ' ');
    assert_eq!(e.color, Color::from_rgb(0, 0, 0));
}

#[test]
fn fade_of_orange() {
    let mut g = Glyph::new('1', Color::from_rgb(200, 100, 50));
    g.fade_color();
    assert_eq!(g.color, Color::from_rgb(148, 84, 52));
}

#[test]
fn fade_lightness_decreases_on_bright_colors() {
    let mut g = Glyph::new('1', Color::from_rgb(0, 255, 43));
    let light = |c: Color| c.r.max(c.g).max(c.b) as u32 + c.r.min(c.g).min(c.b) as u32;
    let mut last = light(g.color);
    for _ in 0..8 {
        g.fade_color();
        let now = light(g.color);
        assert!(now < last);
        last = now;
    }
}

#[test]
fn darkest_red_is_held_by_rounding() {
    let mut g = Glyph::new('1', Color::from_rgb(1, 0, 0));
    g.fade_color();
    assert_eq!(g.color, Color::from_rgb(1, 0, 0));
}

#[test]
fn fade_restores_opacity() {
    let mut g = Glyph::new('1', Color::from_rgba(200, 100, 50, 7));
    g.fade_color();
    assert_eq!(g.color.a, 255);
}
