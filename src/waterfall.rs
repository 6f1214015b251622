use crate::color::Color;
use crate::column::{fresh_column, Column, ColumnView};
use crate::glyph::{Glyph, ALPHABET_LEN};
use rand_xoshiro::Xoshiro256PlusPlus;
use vstd::arithmetic::div_mod::{lemma_fundamental_div_mod_converse_div, lemma_fundamental_div_mod_converse_mod};
use vstd::prelude::*;

verus! {

/// The abstract state of the whole grid.
pub struct WaterfallView {
    pub width: nat,
    pub height: nat,
    pub base_color: Color,
    pub columns: Seq<ColumnView>,
}

impl WaterfallView {
    /// One column per unit of width, each well formed and as tall as the grid.
    pub open spec fn wf(&self) -> bool {
        &&& self.columns.len() == self.width
        &&& forall|i: int|
            0 <= i < self.width ==> (#[trigger] self.columns[i]).wf() && self.columns[i].height
                == self.height
    }

    /// The frame in row-major order: cell `k` is row `k / width` of column
    /// `k % width`.
    pub open spec fn frame(&self) -> Seq<Glyph> {
        Seq::new(
            self.width * self.height,
            |k: int| self.columns[k % (self.width as int)].glyphs[k / (self.width as int)],
        )
    }
}

/// The full animation state: a row of columns.
pub struct MatrixWaterfall {
    height: u16,
    width: u16,
    base_color: Color,
    columns: Vec<Column>,
}

impl View for MatrixWaterfall {
    type V = WaterfallView;

    closed spec fn view(&self) -> WaterfallView {
        WaterfallView {
            width: self.width as nat,
            height: self.height as nat,
            base_color: self.base_color,
            columns: self.columns@.map_values(|c: Column| c@),
        }
    }
}

impl MatrixWaterfall {
    /// `w` empty columns, each `h` tall, all in `col`.
    pub fn new(w: u16, h: u16, col: Color) -> (m: MatrixWaterfall)
        ensures
            m@.width == w,
            m@.height == h,
            m@.base_color == col,
            m@.columns == Seq::new(w as nat, |i: int| fresh_column(h as nat, col)),
            m@.wf(),
    {
        let mut columns: Vec<Column> = Vec::new();
        let mut i: u16 = 0;
        while i < w
            invariant
                i <= w,
                columns@.len() == i,
                forall|j: int| 0 <= j < i ==> (#[trigger] columns@[j])@ == fresh_column(h as nat, col),
            decreases w - i,
        {
            columns.push(Column::new(h, col));
            i = i + 1;
        }
        let m = MatrixWaterfall { height: h, width: w, base_color: col, columns };
        assert(m@.columns =~= Seq::new(w as nat, |i: int| fresh_column(h as nat, col)));
        m
    }

    pub fn width(&self) -> (w: u16)
        ensures
            w == self@.width,
    {
        self.width
    }

    pub fn height(&self) -> (h: u16)
        ensures
            h == self@.height,
    {
        self.height
    }

    pub fn base_color(&self) -> (c: Color)
        ensures
            c == self@.base_color,
    {
        self.base_color
    }

    /// The glyph at column `x`, row `y`.
    pub fn glyph(&self, x: u16, y: u16) -> (g: Glyph)
        requires
            self@.wf(),
            x < self@.width,
            y < self@.height,
        ensures
            g == self@.columns[x as int].glyphs[y as int],
    {
        assert(self@.columns[x as int] == self.columns@[x as int]@);
        self.columns[x as usize].render(y)
    }

    /// One tick with given random inputs: column `i` steps with
    /// `gate_draws[i]` and `picks[i]`.
    pub fn step_with(&mut self, gate_draws: &Vec<u32>, picks: &Vec<usize>)
        requires
            old(self)@.wf(),
            old(self)@.height > 0,
            gate_draws@.len() == old(self)@.width,
            picks@.len() == old(self)@.width,
            forall|i: int| 0 <= i < picks@.len() ==> #[trigger] picks@[i] < ALPHABET_LEN,
        ensures
            final(self)@.wf(),
            final(self)@.width == old(self)@.width,
            final(self)@.height == old(self)@.height,
            final(self)@.base_color == old(self)@.base_color,
            final(self)@.columns == Seq::new(
                old(self)@.width,
                |i: int| old(self)@.columns[i].stepped(gate_draws@[i], picks@[i] as int),
            ),
    {
        let n = self.columns.len();
        let mut i: usize = 0;
        while i < n
            invariant
                n == old(self).columns@.len(),
                n == old(self)@.width,
                i <= n,
                self.height == old(self).height,
                self.width == old(self).width,
                self.base_color == old(self).base_color,
                self.columns@.len() == n,
                gate_draws@.len() == n,
                picks@.len() == n,
                old(self)@.wf(),
                old(self)@.height > 0,
                forall|j: int| 0 <= j < n ==> #[trigger] picks@[j] < ALPHABET_LEN,
                forall|j: int|
                    0 <= j < i ==> (#[trigger] self.columns@[j])@ == old(self)@.columns[j].stepped(
                        gate_draws@[j],
                        picks@[j] as int,
                    ) && self.columns@[j]@.wf() && self.columns@[j]@.height == old(self)@.height,
                forall|j: int| i <= j < n ==> #[trigger] self.columns@[j] == old(self).columns@[j],
            decreases n - i,
        {
            assert(old(self)@.columns[i as int] == old(self).columns@[i as int]@);
            self.columns[i].step_with(gate_draws[i], picks[i]);
            i = i + 1;
        }
        assert(self@.columns =~= Seq::new(
            old(self)@.width,
            |i: int| old(self)@.columns[i].stepped(gate_draws@[i], picks@[i] as int),
        ));
    }
    /// One tick: every column steps, left to right, drawing from the one
    /// shared `rng`.
    pub fn step(&mut self, rng: &mut Xoshiro256PlusPlus)
        requires
            old(self)@.wf(),
            old(self)@.height > 0,
        ensures
            final(self)@.wf(),
            final(self)@.width == old(self)@.width,
            final(self)@.height == old(self)@.height,
            final(self)@.base_color == old(self)@.base_color,
            forall|i: int|
                0 <= i < old(self)@.width ==> old(self)@.columns[i].steps_to(
                    #[trigger] final(self)@.columns[i],
                ),
    {
        let n = self.columns.len();
        let mut i: usize = 0;
        while i < n
            invariant
                n == old(self).columns@.len(),
                n == old(self)@.width,
                i <= n,
                self.height == old(self).height,
                self.width == old(self).width,
                self.base_color == old(self).base_color,
                self.columns@.len() == n,
                old(self)@.wf(),
                old(self)@.height > 0,
                forall|j: int|
                    0 <= j < i ==> old(self)@.columns[j].steps_to((#[trigger] self.columns@[j])@)
                        && self.columns@[j]@.wf()
                        && self.columns@[j]@.height == old(self)@.height,
                forall|j: int| i <= j < n ==> #[trigger] self.columns@[j] == old(self).columns@[j],
            decreases n - i,
        {
            assert(old(self)@.columns[i as int] == old(self).columns@[i as int]@);
            self.columns[i].step(rng);
            i = i + 1;
        }
        assert forall|j: int| 0 <= j < self@.width implies (#[trigger] self@.columns[j]).wf()
            && self@.columns[j].height == self@.height by {
            assert(self@.columns[j] == self.columns@[j]@);
        }
        assert forall|j: int| 0 <= j < old(self)@.width implies old(self)@.columns[j].steps_to(
            #[trigger] self@.columns[j],
        ) by {
            assert(self@.columns[j] == self.columns@[j]@);
        }
    }

    /// The frame to draw, in row-major order: rows top to bottom, and in each
    /// row the columns left to right. The stream relies on the output being
    /// exactly `width` cells wide, so that it wraps onto the next row.
    pub fn render(&self) -> (frame: Vec<Glyph>)
        requires
            self@.wf(),
        ensures
            frame@ == self@.frame(),
    {
        let w = self.width as usize;
        let h = self.height as usize;
        let mut frame: Vec<Glyph> = Vec::new();
        let mut y: usize = 0;
        while y < h
            invariant
                self@.wf(),
                w == self@.width,
                h == self@.height,
                y <= h,
                frame@.len() == y * w,
                forall|k: int| 0 <= k < frame@.len() ==> #[trigger] frame@[k] == self@.frame()[k],
            decreases h - y,
        {
            let mut x: usize = 0;
            while x < w
                invariant
                    self@.wf(),
                    w == self@.width,
                    h == self@.height,
                    y < h,
                    x <= w,
                    frame@.len() == y * w + x,
                    forall|k: int| 0 <= k < frame@.len() ==> #[trigger] frame@[k] == self@.frame()[k],
                decreases w - x,
            {
                proof {
                    let k = y * w + x;
                    assert(k < w * h) by (nonlinear_arith)
                        requires
                            k == y * w + x,
                            x < w,
                            y < h,
                    ;
                    lemma_fundamental_div_mod_converse_div(k as int, w as int, y as int, x as int);
                    lemma_fundamental_div_mod_converse_mod(k as int, w as int, y as int, x as int);
                }
                let g = self.glyph(x as u16, y as u16);
                frame.push(g);
                x = x + 1;
            }
            assert((y + 1) * w == y * w + w) by (nonlinear_arith);
            y = y + 1;
        }
        assert(frame@.len() == self@.width * self@.height) by (nonlinear_arith)
            requires
                frame@.len() == y * w,
                y == h,
                w == self@.width,
                h == self@.height,
        ;
        assert(frame@ =~= self@.frame());
        frame
    }
}

} // verus!
