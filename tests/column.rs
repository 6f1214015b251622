use matrix_rain::color::Color;
use matrix_rain::column::{gate_open, Column, GATE_LIMIT};
use matrix_rain::glyph::Glyph;
use rand_xoshiro::rand_core::SeedableRng;
use rand_xoshiro::Xoshiro256PlusPlus;

const OPEN: u32 = 0;
const CLOSED: u32 = u32::MAX;

fn base() -> Color {
    Color::from_rgb(0, 255, 43)
}

fn faded_empty() -> Glyph {
    let mut g = Glyph::empty();
    g.fade_color();
    g
}

#[test]
fn gate_threshold_is_a_tenth() {
    assert!(gate_open(0));
    assert!(gate_open(GATE_LIMIT as u32));
    assert!(!gate_open(GATE_LIMIT as u32 + 1));
    assert!(!gate_open(u32::MAX));
}

#[test]
fn new_column_is_empty() {
    let c = Column::new(4, base());
    assert_eq!(c.height(), 4);
    assert_eq!(c.active_index(), 0);
    assert_eq!(c.base_color(), base());
    for y in 0..4 {
        assert_eq!(c.render(y), Glyph::empty());
    }
}

#[test]
fn empty_column_is_opaque_black() {
    let c = Column::empty(2);
    assert_eq!(c.base_color(), Color::from_rgba(0, 0, 0, 255));
    assert_eq!(c.render(1), Glyph::empty());
}

#[test]
fn three_ticks_fill_and_wrap() {
    let mut c = Column::new(3, base());
    c.step_with(OPEN, 0);
    assert_eq!(c.active_index(), 1);
    assert_eq!(c.render(0), Glyph::with_symbol(0, base()));
    assert_eq!(c.render(1), faded_empty());
    assert_eq!(c.render(2), faded_empty());

    // no gate away from the top, even with a closed draw
    c.step_with(CLOSED, 1);
    assert_eq!(c.active_index(), 2);
    let mut first = Glyph::with_symbol(0, base());
    first.fade_color();
    assert_eq!(c.render(0), first);
    assert_eq!(c.render(1), Glyph::with_symbol(1, base()));

    c.step_with(CLOSED, 2);
    assert_eq!(c.active_index(), 0);
    assert_eq!(c.render(2), Glyph::with_symbol(2, base()));
    first.fade_color();
    assert_eq!(c.render(0), first);
}

#[test]
fn closed_gate_is_a_no_op() {
    let mut c = Column::new(3, base());
    c.step_with(CLOSED, 5);
    assert_eq!(c.active_index(), 0);
    for y in 0..3 {
        assert_eq!(c.render(y), Glyph::empty());
    }
    c.step_with(GATE_LIMIT as u32 + 1, 5);
    assert_eq!(c.active_index(), 0);
    assert_eq!(c.render(0), Glyph::empty());
}

#[test]
fn single_cell_column_stays_at_top() {
    let mut c = Column::new(1, base());
    c.step_with(OPEN, 3);
    assert_eq!(c.active_index(), 0);
    assert_eq!(c.render(0), Glyph::with_symbol(3, base()));
}

#[test]
fn random_steps_keep_index_in_range() {
    let mut rng = Xoshiro256PlusPlus::seed_from_u64(42);
    let mut c = Column::new(5, base());
    let mut moved = false;
    for _ in 0..500 {
        let before = c.active_index();
        c.step(&mut rng);
        let after = c.active_index();
        assert!(after < 5);
        assert!(after == before || after == (before + 1) % 5);
        if before != 0 {
            assert_eq!(after, (before + 1) % 5);
        }
        moved |= after != before;
    }
    assert!(moved);
}

#[test]
fn random_steps_spawn_alphabet_symbols_in_base_color() {
    let mut rng = Xoshiro256PlusPlus::seed_from_u64(3);
    let mut c = Column::new(6, base());
    let symbols: Vec<char> = (0..matrix_rain::glyph::ALPHABET_LEN)
        .map(|i| Glyph::with_symbol(i, base()).character)
        .collect();
    for _ in 0..300 {
        let at = c.active_index();
        let before = c.render(at as u16);
        c.step(&mut rng);
        let head = c.render(at as u16);
        if c.active_index() != at {
            assert!(symbols.contains(&head.character));
            assert_eq!(head.color, base());
        } else {
            assert_eq!(head, before);
        }
    }
}
