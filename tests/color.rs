use matrix_rain::color::{Color, HslColor};

fn round_trip(c: Color) -> Color {
    c.as_hsl().to_rgb()
}

#[test]
fn from_rgba_keeps_channels() {
    let c = Color::from_rgba(1, 2, 3, 4);
    assert_eq!((c.r, c.g, c.b, c.a), (1, 2, 3, 4));
}

#[test]
fn from_rgb_is_opaque_and_in_order() {
    let c = Color::from_rgb(10, 20, 30);
    assert_eq!(c, Color::from_rgba(10, 20, 30, 255));
}

#[test]
fn hsl_of_pure_red() {
    let v = Color::from_rgb(255, 0, 0).as_hsl();
    assert_eq!(v.h_num, 0);
    assert_eq!(v.s_num * 1, 100 * v.s_den);
    assert_eq!(2 * v.l_num, 100 * v.l_den);
}

#[test]
fn hsl_of_base_green() {
    // hue 2212/17 degrees, saturation 100, lightness 50
    let v = Color::from_rgb(0, 255, 43).as_hsl();
    assert_eq!(v.h_num as u64 * 17, 2212 * v.h_den as u64);
    assert_eq!(v.s_num, 100 * v.s_den);
    assert_eq!(2 * v.l_num, 100 * v.l_den);
}

#[test]
fn achromatic_has_no_hue_or_saturation() {
    for x in [0u8, 1, 77, 128, 254, 255] {
        let v = Color::from_rgb(x, x, x).as_hsl();
        assert_eq!(v.h_num, 0);
        assert_eq!(v.s_num, 0);
    }
}

#[test]
fn round_trip_is_exact_on_a_grid() {
    for r in (0..=255u16).step_by(5) {
        for g in (0..=255u16).step_by(17) {
            for b in (0..=255u16).step_by(3) {
                let c = Color::from_rgb(r as u8, g as u8, b as u8);
                assert_eq!(round_trip(c), c);
            }
        }
    }
}

#[test]
fn round_trip_of_transparent_becomes_opaque() {
    let c = Color::from_rgba(9, 8, 7, 0);
    assert_eq!(round_trip(c), Color::from_rgb(9, 8, 7));
}

#[test]
fn to_rgb_of_primary_hues() {
    assert_eq!(HslColor::new(120, 1, 100, 1, 50, 1).to_rgb(), Color::from_rgb(0, 255, 0));
    assert_eq!(HslColor::new(240, 1, 100, 1, 50, 1).to_rgb(), Color::from_rgb(0, 0, 255));
    assert_eq!(HslColor::new(0, 1, 100, 1, 50, 1).to_rgb(), Color::from_rgb(255, 0, 0));
}

#[test]
fn to_rgb_of_gray_rounds_half_up() {
    assert_eq!(HslColor::new(0, 1, 0, 1, 50, 1).to_rgb(), Color::from_rgb(128, 128, 128));
}

#[test]
fn to_rgb_of_light_color() {
    // hue 20, saturation 60, lightness 2500/51
    assert_eq!(HslColor::new(20, 1, 60, 1, 2500, 51).to_rgb(), Color::from_rgb(200, 100, 50));
}
