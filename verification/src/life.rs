//! The executable simulation: a grid of cells in one flat row-major buffer,
//! stepped one generation at a time and drawn into a framebuffer.

use vstd::prelude::*;
use crate::framebuffer::{Canvas, Framebuffer};
use crate::layout::{
    cell_index, dimensions_ok, lemma_row_major_bounds, lemma_row_major_injective,
    lemma_row_major_inverse, lemma_wrap_periodic, lemma_wrap_step, ring_pred, ring_succ,
    row_major,
};
use crate::universe::{lives_on, seeded_by, wrapped, Universe};

verus! {

/// The seeds of a game as integer coordinate pairs.
pub open spec fn coordinates(seeds: Seq<(usize, usize)>) -> Seq<(int, int)> {
    Seq::new(seeds.len(), |i: int| (seeds[i].0 as int, seeds[i].1 as int))
}

/// The colour in which `canvas` shows a cell: its current colour for a live
/// cell, its background colour for a dead one.
pub open spec fn shade(canvas: Canvas, alive: bool) -> u32 {
    if alive {
        canvas.current
    } else {
        canvas.background
    }
}

/// The canvas with generation `u` drawn on it. Cell `(x, y)` is shown at
/// pixel `(x, y)`; live cells beyond the canvas are left out, and pixels
/// beyond the grid show the background.
pub open spec fn picture(u: Universe, canvas: Canvas) -> Canvas {
    Canvas {
        pixels: Seq::new(
            canvas.pixels.len(),
            |i: int| shade(canvas, u.live.contains((i % canvas.width, i / canvas.width))),
        ),
        ..canvas
    }
}

/// Conway's Game of Life on a torus of `width` by `height` cells.
pub struct GameOfLife {
    width: usize,
    height: usize,
    cells: Vec<bool>,
}

impl View for GameOfLife {
    type V = Universe;

    closed spec fn view(&self) -> Universe {
        Universe {
            width: self.width as int,
            height: self.height as int,
            live: Set::new(
                |c: (int, int)|
                    0 <= c.0 < self.width && 0 <= c.1 < self.height
                        && self.cells@[row_major(self.width as int, c.0, c.1)],
            ),
        }
    }
}

impl GameOfLife {
    /// The invariant of a game: the grid has at least one cell and the buffer
    /// holds one flag for each cell.
    pub closed spec fn wf(&self) -> bool {
        &&& dimensions_ok(self.width as int, self.height as int)
        &&& self.cells@.len() == self.width * self.height
    }

    /// The universe of a well-formed game is well formed, and its size is one
    /// a grid may have.
    pub proof fn lemma_view_wf(&self)
        requires
            self.wf(),
        ensures
            self@.wf(),
            dimensions_ok(self@.width, self@.height),
    {
    }

    /// A game on a `width` by `height` torus in which exactly the cells named
    /// by `initial_state` are alive. A coordinate off the grid wraps round to
    /// the cell it lands on; naming a cell twice is the same as naming it
    /// once.
    pub fn new(width: usize, height: usize, initial_state: Vec<(usize, usize)>) -> (game: Self)
        requires
            dimensions_ok(width as int, height as int),
        ensures
            game.wf(),
            game@ == Universe::seeded(width as int, height as int, coordinates(initial_state@)),
    {
        let ghost seeds = coordinates(initial_state@);
        let ghost w = width as int;
        let ghost h = height as int;
        let mut cells: Vec<bool> = vec![false; width * height];
        proof {
            assert forall|x: int, y: int| 0 <= x < w && 0 <= y < h implies
                !cells@[#[trigger] row_major(w, x, y)]
            by {
                lemma_row_major_bounds(w, h, x, y);
            }
        }
        let mut i: usize = 0;
        while i < initial_state.len()
            invariant
                i <= initial_state.len(),
                dimensions_ok(w, h),
                w == width,
                h == height,
                seeds == coordinates(initial_state@),
                cells@.len() == w * h,
                forall|x: int, y: int|
                    0 <= x < w && 0 <= y < h ==> cells@[#[trigger] row_major(w, x, y)]
                        == seeded_by(seeds, i as int, w, h, x, y),
            decreases initial_state.len() - i,
        {
            let seed: (usize, usize) = initial_state[i];
            let sx: usize = seed.0 % width;
            let sy: usize = seed.1 % height;
            let index: usize = cell_index(width, height, sx, sy);
            cells[index] = true;
            proof {
                assert(wrapped(seeds[i as int], w, h) == (sx as int, sy as int));
                assert forall|x: int, y: int| 0 <= x < w && 0 <= y < h implies
                    cells@[#[trigger] row_major(w, x, y)] == seeded_by(seeds, i + 1, w, h, x, y)
                by {
                    lemma_row_major_bounds(w, h, x, y);
                    if row_major(w, x, y) == index {
                        lemma_row_major_injective(w, x, y, sx as int, sy as int);
                    }
                }
            }
            i = i + 1;
        }
        let game = GameOfLife { width, height, cells };
        proof {
            let target = Universe::seeded(w, h, seeds);
            assert forall|c: (int, int)| game@.live.contains(c) == target.live.contains(c) by {
                if target.live.contains(c) {
                    let j = choose|j: int|
                        0 <= j < seeds.len() && wrapped(#[trigger] seeds[j], w, h) == (c.0, c.1);
                    lemma_wrap_periodic(seeds[j].0, w);
                    lemma_wrap_periodic(seeds[j].1, h);
                }
            }
            assert(game@.live =~= target.live);
        }
        game
    }

    /// Number of cells in a row.
    pub fn width(&self) -> (w: usize)
        ensures
            w == self@.width,
    {
        self.width
    }

    /// Number of rows.
    pub fn height(&self) -> (h: usize)
        ensures
            h == self@.height,
    {
        self.height
    }

    /// Whether the cell that `(x, y)` wraps to is alive.
    pub fn is_alive(&self, x: usize, y: usize) -> (alive: bool)
        requires
            self.wf(),
        ensures
            alive == self@.alive(x as int, y as int),
    {
        let cx: usize = x % self.width;
        let cy: usize = y % self.height;
        self.cell(cx, cy)
    }

    /// The flag of the in-range cell `(x, y)`.
    fn cell(&self, x: usize, y: usize) -> (alive: bool)
        requires
            self.wf(),
            x < self.width,
            y < self.height,
        ensures
            alive == self@.live.contains((x as int, y as int)),
            alive == self@.alive(x as int, y as int),
            self@.census(x as int, y as int) == (if alive { 1nat } else { 0nat }),
    {
        proof {
            self.lemma_view_wf();
            self@.lemma_alive_periodic(x as int, y as int);
        }
        let index: usize = cell_index(self.width, self.height, x, y);
        self.cells[index]
    }

    /// Counts the live cells among the eight neighbours of the cell that
    /// `(x, y)` wraps to. Neighbours across an edge are those on the opposite
    /// edge.
    pub fn live_neighbor_count(&self, x: usize, y: usize) -> (count: usize)
        requires
            self.wf(),
        ensures
            count == self@.live_neighbors(x as int, y as int),
            count <= 8,
    {
        let cx: usize = x % self.width;
        let cy: usize = y % self.height;
        let left: usize = ring_pred(cx, self.width);
        let right: usize = ring_succ(cx, self.width);
        let up: usize = ring_pred(cy, self.height);
        let down: usize = ring_succ(cy, self.height);
        proof {
            let u = self@;
            self.lemma_view_wf();
            u.lemma_neighbors_periodic(x as int, y as int);
            u.lemma_alive_periodic(cx - 1, cy - 1);
            u.lemma_alive_periodic(cx as int, cy - 1);
            u.lemma_alive_periodic(cx + 1, cy - 1);
            u.lemma_alive_periodic(cx - 1, cy as int);
            u.lemma_alive_periodic(cx + 1, cy as int);
            u.lemma_alive_periodic(cx - 1, cy + 1);
            u.lemma_alive_periodic(cx as int, cy + 1);
            u.lemma_alive_periodic(cx + 1, cy + 1);
            lemma_wrap_step(cx as int, self.width as int);
            lemma_wrap_step(cy as int, self.height as int);
        }
        let mut count: usize = 0;
        if self.cell(left, up) {
            count = count + 1;
        }
        if self.cell(cx, up) {
            count = count + 1;
        }
        if self.cell(right, up) {
            count = count + 1;
        }
        if self.cell(left, cy) {
            count = count + 1;
        }
        if self.cell(right, cy) {
            count = count + 1;
        }
        if self.cell(left, down) {
            count = count + 1;
        }
        if self.cell(cx, down) {
            count = count + 1;
        }
        if self.cell(right, down) {
            count = count + 1;
        }
        count
    }

    /// Advances the game by one generation. Every cell of the new generation
    /// is computed from the old one, which is replaced only once all of them
    /// are known.
    pub fn step(&mut self)
        requires
            old(self).wf(),
        ensures
            final(self).wf(),
            final(self)@ == old(self)@.next(),
            final(self)@.width == old(self)@.width,
            final(self)@.height == old(self)@.height,
            forall|x: int, y: int|
                #![trigger final(self)@.alive(x, y)]
                final(self)@.alive(x, y) == lives_on(
                    old(self)@.alive(x, y),
                    old(self)@.live_neighbors(x, y),
                ),
    {
        let ghost w = self.width as int;
        let ghost h = self.height as int;
        let ghost before = self@;
        let mut new_cells: Vec<bool> = vec![false; self.width * self.height];
        let mut y: usize = 0;
        while y < self.height
            invariant
                y <= self.height,
                self.wf(),
                *self == *old(self),
                before == self@,
                w == self.width,
                h == self.height,
                new_cells@.len() == w * h,
                forall|cx: int, cy: int|
                    0 <= cx < w && 0 <= cy < y ==> new_cells@[#[trigger] row_major(w, cx, cy)]
                        == before.alive_next(cx, cy),
            decreases self.height - y,
        {
            let mut x: usize = 0;
            while x < self.width
                invariant
                    x <= self.width,
                    y < self.height,
                    self.wf(),
                    *self == *old(self),
                    before == self@,
                    w == self.width,
                    h == self.height,
                    new_cells@.len() == w * h,
                    forall|cx: int, cy: int|
                        0 <= cx < w && 0 <= cy < y ==> new_cells@[#[trigger] row_major(w, cx, cy)]
                            == before.alive_next(cx, cy),
                    forall|cx: int|
                        0 <= cx < x ==> new_cells@[#[trigger] row_major(w, cx, y as int)]
                            == before.alive_next(cx, y as int),
                decreases self.width - x,
            {
                let index: usize = cell_index(self.width, self.height, x, y);
                let live_neighbors: usize = self.live_neighbor_count(x, y);
                let alive: bool = self.cell(x, y);
                let ghost filled = new_cells@;
                if alive {
                    new_cells[index] = live_neighbors == 2 || live_neighbors == 3;
                } else {
                    new_cells[index] = live_neighbors == 3;
                }
                proof {
                    assert forall|cx: int, cy: int| 0 <= cx < w && 0 <= cy < y implies
                        new_cells@[#[trigger] row_major(w, cx, cy)] == before.alive_next(cx, cy)
                    by {
                        lemma_row_major_bounds(w, h, cx, cy);
                        if row_major(w, cx, cy) == index {
                            lemma_row_major_injective(w, cx, cy, x as int, y as int);
                        }
                    }
                    assert forall|cx: int| 0 <= cx < x + 1 implies
                        new_cells@[#[trigger] row_major(w, cx, y as int)]
                            == before.alive_next(cx, y as int)
                    by {
                        lemma_row_major_bounds(w, h, cx, y as int);
                        if row_major(w, cx, y as int) == index {
                            lemma_row_major_injective(w, cx, y as int, x as int, y as int);
                        } else {
                        }
                    }
                }
                x = x + 1;
            }
            y = y + 1;
        }
        self.cells = new_cells;
        proof {
            let target = before.next();
            assert(self@.live =~= target.live);
            assert forall|x: int, y: int|
                #![trigger self@.alive(x, y)]
                self@.alive(x, y) == lives_on(before.alive(x, y), before.live_neighbors(x, y))
            by {
                before.lemma_next(x, y);
            }
        }
    }

    /// Draws the current generation: clears the framebuffer to its background
    /// colour, then writes its current colour at every live cell. A live cell
    /// that lies outside the framebuffer is not drawn.
    pub fn render(&self, framebuffer: &mut Framebuffer)
        requires
            self.wf(),
            old(framebuffer).wf(),
        ensures
            final(framebuffer).wf(),
            final(framebuffer)@ == picture(self@, old(framebuffer)@),
            forall|x: int, y: int|
                #![trigger final(framebuffer)@.pixel(x, y)]
                old(framebuffer)@.contains(x, y) ==> final(framebuffer)@.pixel(x, y) == shade(
                    old(framebuffer)@,
                    self@.live.contains((x, y)),
                ),
    {
        let ghost u = self@;
        let ghost blank = framebuffer@.cleared();
        framebuffer.clear();
        proof {
            assert forall|px: int, py: int| blank.contains(px, py) implies
                #[trigger] blank.pixel(px, py) == blank.background
            by {
                lemma_row_major_bounds(blank.width, blank.height, px, py);
            }
        }
        let mut y: usize = 0;
        while y < self.height
            invariant
                y <= self.height,
                self.wf(),
                u == self@,
                framebuffer.wf(),
                blank == old(framebuffer)@.cleared(),
                framebuffer@ == (Canvas { pixels: framebuffer@.pixels, ..blank }),
                forall|px: int, py: int|
                    #![trigger framebuffer@.pixel(px, py)]
                    blank.contains(px, py) ==> framebuffer@.pixel(px, py) == shade(
                        blank,
                        py < y && u.live.contains((px, py)),
                    ),
            decreases self.height - y,
        {
            let mut x: usize = 0;
            while x < self.width
                invariant
                    x <= self.width,
                    y < self.height,
                    self.wf(),
                    u == self@,
                    framebuffer.wf(),
                    blank == old(framebuffer)@.cleared(),
                    framebuffer@ == (Canvas { pixels: framebuffer@.pixels, ..blank }),
                    forall|px: int, py: int|
                        #![trigger framebuffer@.pixel(px, py)]
                        blank.contains(px, py) ==> framebuffer@.pixel(px, py) == shade(
                            blank,
                            (py < y || (py == y && px < x)) && u.live.contains((px, py)),
                        ),
                decreases self.width - x,
            {
                if self.cell(x, y) {
                    let ghost canvas = framebuffer@;
                    framebuffer.point(x, y);
                    proof {
                        assert forall|px: int, py: int|
                            #![trigger framebuffer@.pixel(px, py)]
                            blank.contains(px, py) implies
                            framebuffer@.pixel(px, py) == shade(
                                blank,
                                (py < y || (py == y && px < x + 1)) && u.live.contains((px, py)),
                            )
                        by {
                            if canvas.contains(x as int, y as int) {
                                canvas.lemma_plotted_pixel(x as int, y as int, px, py);
                            }
                        }
                    }
                }
                x = x + 1;
            }
            y = y + 1;
        }
        proof {
            self.lemma_view_wf();
            let drawn = picture(u, old(framebuffer)@);
            assert forall|i: int| 0 <= i < drawn.pixels.len() implies
                framebuffer@.pixels[i] == drawn.pixels[i]
            by {
                lemma_row_major_inverse(blank.width, blank.height, i);
                assert(framebuffer@.pixel(i % blank.width, i / blank.width)
                    == framebuffer@.pixels[i]);
            }
            assert(framebuffer@.pixels =~= drawn.pixels);
        }
    }
}

} // verus!
