use crate::color::Color;
use crate::glyph::{alphabet, empty_glyph, faded, Glyph, ALPHABET_LEN};
use crate::random::{below, next_u32};
use rand_xoshiro::Xoshiro256PlusPlus;
use vstd::prelude::*;

verus! {

/// Largest gate draw, out of `2^32`, that lets a new drop start: a tenth of
/// the range.
pub const GATE_LIMIT: u64 = 429_496_729;

/// Whether a uniform 32-bit value lets a drop start: as a fraction of `2^32`
/// it is at most one tenth.
pub open spec fn gate_opens(draw: u32) -> bool {
    10 * draw <= 0x1_0000_0000
}

pub fn gate_open(draw: u32) -> (r: bool)
    ensures
        r == gate_opens(draw),
{
    (draw as u64) <= GATE_LIMIT
}

/// The abstract state of a column.
pub struct ColumnView {
    pub height: nat,
    pub base_color: Color,
    pub glyphs: Seq<Glyph>,
    pub active_index: nat,
}

impl ColumnView {
    /// As many glyphs as the height, and the write position inside the column
    /// (at 0 for a column of no cells).
    pub open spec fn wf(&self) -> bool {
        &&& self.glyphs.len() == self.height
        &&& (self.active_index < self.height || (self.height == 0 && self.active_index == 0))
    }

    /// The position after `i`: one down, back to the top past the last cell.
    pub open spec fn next_index(&self, i: nat) -> nat {
        if i + 1 >= self.height {
            0
        } else {
            (i + 1) as nat
        }
    }

    /// An active tick: every glyph fades, the symbol `pick` in the base color
    /// is written at the write position, and the position advances.
    pub open spec fn ticked(&self, pick: int) -> ColumnView {
        ColumnView {
            height: self.height,
            base_color: self.base_color,
            glyphs: Seq::new(
                self.glyphs.len(),
                |i: int|
                    if i == self.active_index {
                        Glyph { character: alphabet()[pick], color: self.base_color }
                    } else {
                        Glyph { character: self.glyphs[i].character, color: faded(self.glyphs[i].color) }
                    },
            ),
            active_index: self.next_index(self.active_index),
        }
    }

    /// Whether some gate draw and some symbol take this state to `next` in
    /// one tick.
    pub open spec fn steps_to(&self, next: ColumnView) -> bool {
        exists|gate_draw: u32, pick: int|
            0 <= pick < ALPHABET_LEN && next == self.stepped(gate_draw, pick)
    }

    /// One tick given its random inputs: at the top a closed gate leaves the
    /// column as it is; otherwise the tick is active.
    pub open spec fn stepped(&self, gate_draw: u32, pick: int) -> ColumnView {
        if self.active_index == 0 && !gate_opens(gate_draw) {
            *self
        } else {
            self.ticked(pick)
        }
    }
}

/// One vertical stream of glyphs.
pub struct Column {
    height: u16,
    base_color: Color,
    glyphs: Vec<Glyph>,
    active_index: usize,
}

impl View for Column {
    type V = ColumnView;

    closed spec fn view(&self) -> ColumnView {
        ColumnView {
            height: self.height as nat,
            base_color: self.base_color,
            glyphs: self.glyphs@,
            active_index: self.active_index as nat,
        }
    }
}

/// A column of `height` empty cells in `base_color`, writing at the top.
pub open spec fn fresh_column(height: nat, base_color: Color) -> ColumnView {
    ColumnView {
        height,
        base_color,
        glyphs: Seq::new(height, |i: int| empty_glyph()),
        active_index: 0,
    }
}

fn empty_glyphs(height: u16) -> (v: Vec<Glyph>)
    ensures
        v@ == Seq::new(height as nat, |i: int| empty_glyph()),
{
    let mut v: Vec<Glyph> = Vec::new();
    let mut i: u16 = 0;
    while i < height
        invariant
            i <= height,
            v@ == Seq::new(i as nat, |j: int| empty_glyph()),
        decreases height - i,
    {
        v.push(Glyph::empty());
        i = i + 1;
    }
    v
}

impl Column {
    pub fn new(height: u16, base_color: Color) -> (c: Column)
        ensures
            c@ == fresh_column(height as nat, base_color),
            c@.wf(),
    {
        Column { height, base_color, glyphs: empty_glyphs(height), active_index: 0 }
    }

    /// An empty column in opaque black.
    pub fn empty(height: u16) -> (c: Column)
        ensures
            c@ == fresh_column(height as nat, Color { r: 0, g: 0, b: 0, a: 255 }),
            c@.wf(),
    {
        Column::new(height, Color::from_rgba(0, 0, 0, 255))
    }

    pub fn height(&self) -> (h: u16)
        ensures
            h == self@.height,
    {
        self.height
    }

    pub fn base_color(&self) -> (c: Color)
        ensures
            c == self@.base_color,
    {
        self.base_color
    }

    pub fn active_index(&self) -> (i: usize)
        ensures
            i == self@.active_index,
    {
        self.active_index
    }

    /// The glyph shown at row `y`.
    pub fn render(&self, y: u16) -> (g: Glyph)
        requires
            self@.wf(),
            y < self@.height,
        ensures
            g == self@.glyphs[y as int],
    {
        self.glyphs[y as usize]
    }

    /// An active tick with symbol `pick` for the new head.
    pub fn tick(&mut self, pick: usize)
        requires
            old(self)@.wf(),
            old(self)@.height > 0,
            pick < ALPHABET_LEN,
        ensures
            final(self)@ == old(self)@.ticked(pick as int),
            final(self)@.wf(),
    {
        let n = self.glyphs.len();
        let mut i: usize = 0;
        while i < n
            invariant
                n == old(self).glyphs@.len(),
                i <= n,
                self.height == old(self).height,
                self.base_color == old(self).base_color,
                self.active_index == old(self).active_index,
                self.glyphs@.len() == n,
                forall|j: int| 0 <= j < i ==> #[trigger] self.glyphs@[j] == (Glyph {
                    character: old(self).glyphs@[j].character,
                    color: faded(old(self).glyphs@[j].color),
                }),
                forall|j: int| i <= j < n ==> #[trigger] self.glyphs@[j] == old(self).glyphs@[j],
            decreases n - i,
        {
            let mut g = self.glyphs[i];
            g.fade_color();
            self.glyphs.set(i, g);
            i = i + 1;
        }
        let head = Glyph::with_symbol(pick, self.base_color);
        self.glyphs.set(self.active_index, head);
        self.active_index = self.active_index + 1;
        if self.active_index >= self.height as usize {
            self.active_index = 0;
        }
        assert(self@.glyphs =~= old(self)@.ticked(pick as int).glyphs);
    }

    /// One tick given its random inputs: the start value, which matters at the
    /// top alone, and the symbol for the new head.
    pub fn step_with(&mut self, gate_draw: u32, pick: usize)
        requires
            old(self)@.wf(),
            old(self)@.height > 0,
            pick < ALPHABET_LEN,
        ensures
            final(self)@ == old(self)@.stepped(gate_draw, pick as int),
            final(self)@.wf(),
    {
        if self.active_index == 0 && !gate_open(gate_draw) {
            return;
        }
        self.tick(pick);
    }

    /// One tick with its random inputs taken from `rng`: the start value just
    /// at the top, then the symbol only if the tick is active.
    pub fn step(&mut self, rng: &mut Xoshiro256PlusPlus)
        requires
            old(self)@.wf(),
            old(self)@.height > 0,
        ensures
            final(self)@.wf(),
            old(self)@.steps_to(final(self)@),
    {
        let mut gate_draw: u32 = 0;
        if self.active_index == 0 {
            gate_draw = next_u32(rng);
            if !gate_open(gate_draw) {
                assert(self@ == old(self)@.stepped(gate_draw, 0));
                return;
            }
        }
        let pick = below(rng, ALPHABET_LEN);
        self.step_with(gate_draw, pick);
        assert(self@ == old(self)@.stepped(gate_draw, pick as int));
    }
}

/// The state after one tick per pair of random inputs, in order.
pub open spec fn run(c: ColumnView, gate_draws: Seq<u32>, picks: Seq<int>) -> ColumnView
    decreases gate_draws.len(),
{
    if gate_draws.len() == 0 || picks.len() == 0 {
        c
    } else {
        run(c.stepped(gate_draws[0], picks[0]), gate_draws.drop_first(), picks.drop_first())
    }
}

pub open spec fn valid_picks(picks: Seq<int>) -> bool {
    forall|i: int| 0 <= i < picks.len() ==> 0 <= #[trigger] picks[i] < ALPHABET_LEN
}

/// One tick keeps the height, the base color and well-formedness: as many
/// glyphs as the height, the write position inside the column.
pub proof fn lemma_step_keeps_shape(c: ColumnView, gate_draw: u32, pick: int)
    requires
        c.wf(),
        c.height > 0,
        0 <= pick < ALPHABET_LEN,
    ensures
        c.stepped(gate_draw, pick).wf(),
        c.stepped(gate_draw, pick).glyphs.len() == c.height,
        c.stepped(gate_draw, pick).height == c.height,
        c.stepped(gate_draw, pick).base_color == c.base_color,
{
}

/// Any number of ticks keeps the height, the base color, as many glyphs as
/// the height, and the write position in `[0, height)`.
pub proof fn lemma_run_keeps_shape(c: ColumnView, gate_draws: Seq<u32>, picks: Seq<int>)
    requires
        c.wf(),
        c.height > 0,
        valid_picks(picks),
    ensures
        run(c, gate_draws, picks).wf(),
        run(c, gate_draws, picks).glyphs.len() == c.height,
        run(c, gate_draws, picks).active_index < c.height,
        run(c, gate_draws, picks).height == c.height,
        run(c, gate_draws, picks).base_color == c.base_color,
    decreases gate_draws.len(),
{
    if gate_draws.len() > 0 && picks.len() > 0 {
        lemma_step_keeps_shape(c, gate_draws[0], picks[0]);
        assert(valid_picks(picks.drop_first())) by {
            assert forall|i: int| 0 <= i < picks.drop_first().len() implies 0
                <= #[trigger] picks.drop_first()[i] < ALPHABET_LEN by {
                assert(picks.drop_first()[i] == picks[i + 1]);
            }
        }
        lemma_run_keeps_shape(c.stepped(gate_draws[0], picks[0]), gate_draws.drop_first(), picks.drop_first());
    }
}

/// The write position moves one down on an active tick and wraps from the
/// last cell to the top; at the top a closed gate keeps it there.
pub proof fn lemma_index_advances(c: ColumnView, gate_draw: u32, pick: int)
    requires
        c.wf(),
        c.height > 0,
        0 <= pick < ALPHABET_LEN,
    ensures
        c.active_index == 0 && !gate_opens(gate_draw) ==> c.stepped(gate_draw, pick) == c,
        !(c.active_index == 0 && !gate_opens(gate_draw)) ==> c.stepped(gate_draw, pick).active_index
            == ((c.active_index + 1) as int) % (c.height as int),
        c.active_index == c.height - 1 && c.height > 1 ==> c.stepped(gate_draw, pick).active_index
            == 0,
{
    if !(c.active_index == 0 && !gate_opens(gate_draw)) {
        if c.active_index + 1 >= c.height {
            assert(c.active_index + 1 == c.height);
            vstd::arithmetic::div_mod::lemma_mod_self_0(c.height as int);
        } else {
            assert(((c.active_index + 1) as int) % (c.height as int) == c.active_index + 1) by {
                vstd::arithmetic::div_mod::lemma_small_mod((c.active_index + 1) as nat, c.height);
            }
        }
    }
}

/// Equal states driven by equal random inputs end in equal states: glyph
/// characters, colors and the write position alike.
pub proof fn lemma_run_deterministic(a: ColumnView, b: ColumnView, gate_draws: Seq<u32>, picks: Seq<int>)
    requires
        a == b,
    ensures
        run(a, gate_draws, picks) == run(b, gate_draws, picks),
{
}

/// An active tick writes at the old write position a glyph whose symbol is
/// in the alphabet and whose color is the base color.
pub proof fn lemma_spawn_in_alphabet(c: ColumnView, gate_draw: u32, pick: int)
    requires
        c.wf(),
        c.height > 0,
        0 <= pick < ALPHABET_LEN,
        !(c.active_index == 0 && !gate_opens(gate_draw)),
    ensures
        alphabet().contains(c.stepped(gate_draw, pick).glyphs[c.active_index as int].character),
        c.stepped(gate_draw, pick).glyphs[c.active_index as int].color == c.base_color,
{
    let g = c.stepped(gate_draw, pick).glyphs[c.active_index as int];
    assert(alphabet().len() == ALPHABET_LEN);
    assert(alphabet()[pick] == g.character);
}

} // verus!
