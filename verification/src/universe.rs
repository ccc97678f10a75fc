//! The mathematical model of the simulation: a torus of cells, the set of
//! those that are alive, and the rule that takes one generation to the next.

use vstd::prelude::*;
use crate::layout::{lemma_wrap_periodic, lemma_wrap_shift, lemma_wrap_step, wrap};

verus! {

/// The rule of the game: a live cell stays alive with two or three live
/// neighbours, a dead cell comes alive with exactly three.
pub open spec fn lives_on(alive: bool, neighbors: nat) -> bool {
    if alive {
        neighbors == 2 || neighbors == 3
    } else {
        neighbors == 3
    }
}

/// The cell of the torus that the coordinate pair `c` lands on.
pub open spec fn wrapped(c: (int, int), width: int, height: int) -> (int, int) {
    (wrap(c.0, width), wrap(c.1, height))
}

/// Whether one of the first `n` of `seeds` lands on the cell `(x, y)` of a
/// `width` by `height` torus.
pub open spec fn seeded_by(
    seeds: Seq<(int, int)>,
    n: int,
    width: int,
    height: int,
    x: int,
    y: int,
) -> bool {
    exists|i: int| 0 <= i < n && wrapped(#[trigger] seeds[i], width, height) == (x, y)
}

/// One generation: a `width` by `height` torus and the cells alive on it.
pub struct Universe {
    pub width: int,
    pub height: int,
    pub live: Set<(int, int)>,
}

impl Universe {
    /// Whether `(x, y)` is a cell of the grid, without wrapping.
    pub open spec fn contains(self, x: int, y: int) -> bool {
        0 <= x < self.width && 0 <= y < self.height
    }

    /// The grid has at least one cell and every live cell lies on it.
    pub open spec fn wf(self) -> bool {
        &&& self.width >= 1
        &&& self.height >= 1
        &&& forall|x: int, y: int| #[trigger] self.live.contains((x, y)) ==> self.contains(x, y)
    }

    /// Whether the cell that `(x, y)` wraps to is alive. Defined for every
    /// pair of integers: the grid repeats in both directions.
    pub open spec fn alive(self, x: int, y: int) -> bool {
        self.live.contains(wrapped((x, y), self.width, self.height))
    }

    /// 1 if the cell at `(x, y)` is alive, else 0.
    pub open spec fn census(self, x: int, y: int) -> nat {
        if self.alive(x, y) {
            1
        } else {
            0
        }
    }

    /// How many of the eight cells around `(x, y)` are alive, each neighbour
    /// taken at its wrapped position.
    pub open spec fn live_neighbors(self, x: int, y: int) -> nat {
        self.census(x - 1, y - 1) + self.census(x, y - 1) + self.census(x + 1, y - 1)
            + self.census(x - 1, y) + self.census(x + 1, y)
            + self.census(x - 1, y + 1) + self.census(x, y + 1) + self.census(x + 1, y + 1)
    }

    /// Whether the cell at `(x, y)` is alive in the next generation.
    pub open spec fn alive_next(self, x: int, y: int) -> bool {
        lives_on(self.alive(x, y), self.live_neighbors(x, y))
    }

    /// The next generation. Every cell is decided from this generation alone.
    pub open spec fn next(self) -> Universe {
        Universe {
            width: self.width,
            height: self.height,
            live: Set::new(|c: (int, int)| self.contains(c.0, c.1) && self.alive_next(c.0, c.1)),
        }
    }

    /// The generation `n` steps on.
    pub open spec fn after(self, n: nat) -> Universe
        decreases n,
    {
        if n == 0 {
            self
        } else {
            self.next().after((n - 1) as nat)
        }
    }

    /// The generation in which exactly the cells that `seeds` wrap to are
    /// alive. A seed may repeat, and may lie off the grid.
    pub open spec fn seeded(width: int, height: int, seeds: Seq<(int, int)>) -> Universe {
        Universe {
            width,
            height,
            live: Set::new(
                |c: (int, int)| seeded_by(seeds, seeds.len() as int, width, height, c.0, c.1),
            ),
        }
    }

    /// The torus has no edge: a cell is found again one full turn further in
    /// either direction, and any coordinate stands for the cell it wraps to.
    pub proof fn lemma_alive_periodic(self, x: int, y: int)
        requires
            self.wf(),
        ensures
            self.contains(wrap(x, self.width), wrap(y, self.height)),
            self.alive(x, y) == self.alive(wrap(x, self.width), wrap(y, self.height)),
            self.alive(x + self.width, y) == self.alive(x, y),
            self.alive(x - self.width, y) == self.alive(x, y),
            self.alive(x, y + self.height) == self.alive(x, y),
            self.alive(x, y - self.height) == self.alive(x, y),
            self.contains(x, y) ==> self.alive(x, y) == self.live.contains((x, y)),
    {
        lemma_wrap_periodic(x, self.width);
        lemma_wrap_periodic(y, self.height);
        if self.contains(x, y) {
            lemma_wrap_step(x, self.width);
            lemma_wrap_step(y, self.height);
        }
    }

    /// A neighbour across an edge is the cell on the opposite edge: left of
    /// column 0 lies the last column, right of the last column lies column 0,
    /// and likewise for rows. So a live cell on one edge counts as a neighbour
    /// of the cells next to it on the opposite edge.
    pub proof fn lemma_edges_meet(self, x: int, y: int)
        requires
            self.wf(),
            self.contains(x, y),
        ensures
            self.alive(-1, y) == self.live.contains((self.width - 1, y)),
            self.alive(self.width, y) == self.live.contains((0, y)),
            self.alive(x, -1) == self.live.contains((x, self.height - 1)),
            self.alive(x, self.height) == self.live.contains((x, 0)),
            self.alive(-1, -1) == self.live.contains((self.width - 1, self.height - 1)),
            self.live.contains((self.width - 1, y)) ==> self.live_neighbors(0, y) >= 1,
            self.live.contains((0, y)) ==> self.live_neighbors(self.width - 1, y) >= 1,
            self.live.contains((x, self.height - 1)) ==> self.live_neighbors(x, 0) >= 1,
            self.live.contains((x, 0)) ==> self.live_neighbors(x, self.height - 1) >= 1,
    {
        lemma_wrap_step(0, self.width);
        lemma_wrap_step(self.width - 1, self.width);
        lemma_wrap_step(0, self.height);
        lemma_wrap_step(self.height - 1, self.height);
        lemma_wrap_step(x, self.width);
        lemma_wrap_step(y, self.height);
    }

    /// The neighbour count of a coordinate is that of the cell it wraps to.
    pub proof fn lemma_neighbors_periodic(self, x: int, y: int)
        requires
            self.wf(),
        ensures
            self.live_neighbors(x, y) == self.live_neighbors(
                wrap(x, self.width),
                wrap(y, self.height),
            ),
            self.alive_next(x, y) == self.alive_next(wrap(x, self.width), wrap(y, self.height)),
    {
        let w = self.width;
        let h = self.height;
        lemma_wrap_shift(x, -1, w);
        lemma_wrap_shift(x, 0, w);
        lemma_wrap_shift(x, 1, w);
        lemma_wrap_shift(y, -1, h);
        lemma_wrap_shift(y, 0, h);
        lemma_wrap_shift(y, 1, h);
    }

    /// One step keeps the grid's size and applies the rule to every cell at
    /// once: whether a cell is alive afterwards depends only on the cell and
    /// its eight neighbours as they were before.
    pub proof fn lemma_next(self, x: int, y: int)
        requires
            self.wf(),
        ensures
            self.next().wf(),
            self.next().width == self.width,
            self.next().height == self.height,
            self.next().alive(x, y) == lives_on(self.alive(x, y), self.live_neighbors(x, y)),
    {
        self.lemma_alive_periodic(x, y);
        self.lemma_neighbors_periodic(x, y);
    }

    /// A live cell with two or three live neighbours stays alive and with any
    /// other count dies; a dead cell comes alive exactly when it has three.
    pub proof fn lemma_birth_and_survival(self, x: int, y: int)
        requires
            self.wf(),
        ensures
            self.alive(x, y) ==> (self.next().alive(x, y) <==> (self.live_neighbors(x, y) == 2
                || self.live_neighbors(x, y) == 3)),
            !self.alive(x, y) ==> (self.next().alive(x, y) <==> self.live_neighbors(x, y) == 3),
            self.live_neighbors(x, y) <= 8,
    {
        self.lemma_next(x, y);
    }

    /// Stepping `n` times keeps the universe well formed and its size.
    pub proof fn lemma_after_wf(self, n: nat)
        requires
            self.wf(),
        ensures
            self.after(n).wf(),
            self.after(n).width == self.width,
            self.after(n).height == self.height,
        decreases n,
    {
        if n > 0 {
            self.lemma_next(0, 0);
            self.next().lemma_after_wf((n - 1) as nat);
        }
    }

    /// Stepping `m + n` times is stepping `m` times and then `n` times.
    pub proof fn lemma_after_add(self, m: nat, n: nat)
        ensures
            self.after(m + n) == self.after(m).after(n),
        decreases m,
    {
        if m > 0 {
            self.next().lemma_after_add((m - 1) as nat, n);
        }
    }

    /// Two well-formed universes of one size are the same universe as soon as
    /// they agree on every cell of the grid.
    pub proof fn lemma_equal_by_cells(self, other: Universe)
        requires
            self.wf(),
            other.wf(),
            self.width == other.width,
            self.height == other.height,
            forall|x: int, y: int|
                self.contains(x, y) ==> (#[trigger] self.live.contains((x, y))
                    <==> other.live.contains((x, y))),
        ensures
            self == other,
    {
        assert forall|c: (int, int)| self.live.contains(c) == other.live.contains(c) by {
            if self.live.contains(c) {
                assert(self.live.contains((c.0, c.1)));
            }
            if other.live.contains(c) {
                assert(other.live.contains((c.0, c.1)));
            }
        }
        assert(self.live =~= other.live);
    }

    /// A seeded universe is well formed.
    pub proof fn lemma_seeded_wf(width: int, height: int, seeds: Seq<(int, int)>)
        requires
            width >= 1,
            height >= 1,
        ensures
            Self::seeded(width, height, seeds).wf(),
    {
        let u = Self::seeded(width, height, seeds);
        assert forall|x: int, y: int| #[trigger] u.live.contains((x, y)) implies u.contains(
            x,
            y,
        ) by {
            let i = choose|i: int|
                0 <= i < seeds.len() && wrapped(#[trigger] seeds[i], width, height) == (x, y);
            lemma_wrap_periodic(seeds[i].0, width);
            lemma_wrap_periodic(seeds[i].1, height);
        }
    }
}

} // verus!
