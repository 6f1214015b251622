use matrix_rain::color::Color;
use matrix_rain::waterfall::MatrixWaterfall;
use rand_xoshiro::rand_core::SeedableRng;
use rand_xoshiro::Xoshiro256PlusPlus;

fn base() -> Color {
    Color::from_rgb(0, 255, 43)
}

#[test]
fn new_waterfall_has_its_size() {
    let m = MatrixWaterfall::new(4, 3, base());
    assert_eq!(m.width(), 4);
    assert_eq!(m.height(), 3);
    assert_eq!(m.base_color(), base());
    assert_eq!(m.render().len(), 12);
}

#[test]
fn render_is_row_major() {
    let mut m = MatrixWaterfall::new(3, 2, base());
    // only column 1 starts a drop
    m.step_with(&vec![u32::MAX, 0, u32::MAX], &vec![0, 4, 0]);
    let frame = m.render();
    assert_eq!(frame.len(), 6);
    for y in 0..2u16 {
        for x in 0..3u16 {
            assert_eq!(frame[y as usize * 3 + x as usize], m.glyph(x, y));
        }
    }
    assert_eq!(frame[1].character, m.glyph(1, 0).character);
    assert_ne!(frame[1], frame[0]);
}

#[test]
fn same_seed_same_frames() {
    let mut a = MatrixWaterfall::new(6, 4, base());
    let mut b = MatrixWaterfall::new(6, 4, base());
    let mut ra = Xoshiro256PlusPlus::seed_from_u64(99);
    let mut rb = Xoshiro256PlusPlus::seed_from_u64(99);
    for _ in 0..60 {
        a.step(&mut ra);
        b.step(&mut rb);
        assert_eq!(a.render(), b.render());
    }
}

#[test]
fn step_with_drives_each_column() {
    let mut m = MatrixWaterfall::new(2, 3, base());
    m.step_with(&vec![0, 0], &vec![1, 2]);
    assert_eq!(m.glyph(0, 0).character, matrix_rain::glyph::Glyph::with_symbol(1, base()).character);
    assert_eq!(m.glyph(1, 0).character, matrix_rain::glyph::Glyph::with_symbol(2, base()).character);
}
