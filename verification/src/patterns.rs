//! What the rule does to some well-known shapes, wherever on the torus they
//! are placed: the block stays, the blinker turns, the glider travels.
//!
//! A shape is the list of cells that seeds it. Its coordinates may be any
//! integers; each cell stands where it wraps to.

use vstd::prelude::*;
use crate::layout::{lemma_wrap_offset, lemma_wrap_periodic, lemma_wrap_step, wrap};
use crate::universe::{wrapped, Universe};

verus! {

/// The block: a square of two by two cells with its top-left corner at
/// `(x, y)`.
pub open spec fn block(x: int, y: int) -> Seq<(int, int)> {
    seq![(x, y), (x + 1, y), (x, y + 1), (x + 1, y + 1)]
}

/// Three cells in a column, the topmost at `(x, y)`.
pub open spec fn column_of_three(x: int, y: int) -> Seq<(int, int)> {
    seq![(x, y), (x, y + 1), (x, y + 2)]
}

/// Three cells in a row, the leftmost at `(x, y)`.
pub open spec fn row_of_three(x: int, y: int) -> Seq<(int, int)> {
    seq![(x, y), (x + 1, y), (x + 2, y)]
}

/// The glider heading down and to the right, placed so that the square of
/// three by three cells it spans has its top-left corner at `(x + 1, y)`.
pub open spec fn glider(x: int, y: int) -> Seq<(int, int)> {
    seq![(x + 1, y + 2), (x + 2, y + 2), (x + 3, y + 2), (x + 3, y + 1), (x + 2, y)]
}

/// The glider one step after `glider(x, y)`.
pub open spec fn glider_second(x: int, y: int) -> Seq<(int, int)> {
    seq![(x + 1, y + 1), (x + 2, y + 2), (x + 2, y + 3), (x + 3, y + 1), (x + 3, y + 2)]
}

/// The glider two steps after `glider(x, y)`.
pub open spec fn glider_third(x: int, y: int) -> Seq<(int, int)> {
    seq![(x + 1, y + 2), (x + 2, y + 3), (x + 3, y + 1), (x + 3, y + 2), (x + 3, y + 3)]
}

/// The glider three steps after `glider(x, y)`.
pub open spec fn glider_fourth(x: int, y: int) -> Seq<(int, int)> {
    seq![(x + 2, y + 1), (x + 2, y + 3), (x + 3, y + 2), (x + 3, y + 3), (x + 4, y + 2)]
}

/// Whether `c` is the cell that one of the first five of `seeds` wraps to,
/// written out seed by seed.
spec fn is_one_of(seeds: Seq<(int, int)>, width: int, height: int, c: (int, int)) -> bool {
    ||| seeds.len() > 0 && c == wrapped(seeds[0], width, height)
    ||| seeds.len() > 1 && c == wrapped(seeds[1], width, height)
    ||| seeds.len() > 2 && c == wrapped(seeds[2], width, height)
    ||| seeds.len() > 3 && c == wrapped(seeds[3], width, height)
    ||| seeds.len() > 4 && c == wrapped(seeds[4], width, height)
}

/// The live cells of a universe seeded with up to five cells are the cells
/// those wrap to, one by one.
proof fn lemma_cells(width: int, height: int, seeds: Seq<(int, int)>)
    requires
        seeds.len() <= 5,
    ensures
        forall|cx: int, cy: int| #[trigger]
            Universe::seeded(width, height, seeds).live.contains((cx, cy)) == is_one_of(
                seeds,
                width,
                height,
                (cx, cy),
            ),
{
}

/// If the rule makes exactly the cells seeded by `to` alive after the
/// generation seeded by `from`, then that generation's successor is the
/// generation seeded by `to`.
proof fn lemma_step_by_cells(width: int, height: int, from: Seq<(int, int)>, to: Seq<(int, int)>)
    requires
        width >= 1,
        height >= 1,
        forall|cx: int, cy: int|
            0 <= cx < width && 0 <= cy < height ==> Universe::seeded(
                width,
                height,
                from,
            ).alive_next(cx, cy) == #[trigger] Universe::seeded(width, height, to).live.contains(
                (cx, cy),
            ),
    ensures
        Universe::seeded(width, height, from).next() == Universe::seeded(width, height, to),
{
    let u = Universe::seeded(width, height, from);
    let v = Universe::seeded(width, height, to);
    Universe::lemma_seeded_wf(width, height, from);
    Universe::lemma_seeded_wf(width, height, to);
    u.lemma_next(0, 0);
    u.next().lemma_equal_by_cells(v);
}

/// The cell `k` steps on from where `v` lands on a ring of `n` cells: `k`
/// cells further, less one turn if that passes the last cell.
spec fn onward(v: int, k: int, n: int) -> int {
    if wrap(v, n) + k < n {
        wrap(v, n) + k
    } else {
        wrap(v, n) + k - n
    }
}

/// Where the coordinates up to four cells on from `v` land on a ring of `n`
/// cells, as far as the ring is long enough.
proof fn lemma_span(v: int, n: int)
    requires
        n >= 3,
    ensures
        0 <= wrap(v, n) < n,
        wrap(v + 1, n) == onward(v, 1, n),
        wrap(v + 2, n) == onward(v, 2, n),
        wrap(v + 3, n) == onward(v, 3, n),
        n >= 4 ==> wrap(v + 4, n) == onward(v, 4, n),
{
    lemma_wrap_periodic(v, n);
    lemma_wrap_offset(v, 1, n);
    lemma_wrap_offset(v, 2, n);
    lemma_wrap_offset(v, 3, n);
    if n >= 4 {
        lemma_wrap_offset(v, 4, n);
    }
}

/// A block is a still life: on a torus of at least three by three cells, a
/// universe seeded with one block, anywhere, is its own next generation.
pub proof fn lemma_block_is_still(width: int, height: int, x: int, y: int)
    requires
        width >= 3,
        height >= 3,
    ensures
        Universe::seeded(width, height, block(x, y)).next() == Universe::seeded(
            width,
            height,
            block(x, y),
        ),
{
    let u = Universe::seeded(width, height, block(x, y));
    lemma_cells(width, height, block(x, y));
    lemma_span(x, width);
    lemma_span(y, height);
    assert forall|cx: int, cy: int| 0 <= cx < width && 0 <= cy < height implies u.alive_next(cx, cy)
        == #[trigger] u.live.contains((cx, cy)) by {
        lemma_wrap_step(cx, width);
        lemma_wrap_step(cy, height);
    }
    lemma_step_by_cells(width, height, block(x, y), block(x, y));
}

/// A block stays as it is for any number of generations.
pub proof fn lemma_block_stays_forever(width: int, height: int, x: int, y: int, n: nat)
    requires
        width >= 3,
        height >= 3,
    ensures
        Universe::seeded(width, height, block(x, y)).after(n) == Universe::seeded(
            width,
            height,
            block(x, y),
        ),
    decreases n,
{
    if n > 0 {
        lemma_block_is_still(width, height, x, y);
        lemma_block_stays_forever(width, height, x, y, (n - 1) as nat);
    }
}

/// One step turns a column of three into the row of three through its middle
/// cell, on any torus at least three cells wide and four high.
pub proof fn lemma_column_becomes_row(width: int, height: int, x: int, y: int)
    requires
        width >= 3,
        height >= 4,
    ensures
        Universe::seeded(width, height, column_of_three(x, y)).next() == Universe::seeded(
            width,
            height,
            row_of_three(x - 1, y + 1),
        ),
{
    let u = Universe::seeded(width, height, column_of_three(x, y));
    let v = Universe::seeded(width, height, row_of_three(x - 1, y + 1));
    lemma_cells(width, height, column_of_three(x, y));
    lemma_cells(width, height, row_of_three(x - 1, y + 1));
    lemma_span(x - 1, width);
    lemma_span(y, height);
    assert forall|cx: int, cy: int| 0 <= cx < width && 0 <= cy < height implies u.alive_next(cx, cy)
        == #[trigger] v.live.contains((cx, cy)) by {
        lemma_wrap_step(cx, width);
        lemma_wrap_step(cy, height);
    }
    lemma_step_by_cells(width, height, column_of_three(x, y), row_of_three(x - 1, y + 1));
}

/// One step turns a row of three into the column of three through its middle
/// cell, on any torus at least four cells wide and three high.
pub proof fn lemma_row_becomes_column(width: int, height: int, x: int, y: int)
    requires
        width >= 4,
        height >= 3,
    ensures
        Universe::seeded(width, height, row_of_three(x, y)).next() == Universe::seeded(
            width,
            height,
            column_of_three(x + 1, y - 1),
        ),
{
    let u = Universe::seeded(width, height, row_of_three(x, y));
    let v = Universe::seeded(width, height, column_of_three(x + 1, y - 1));
    lemma_cells(width, height, row_of_three(x, y));
    lemma_cells(width, height, column_of_three(x + 1, y - 1));
    lemma_span(x, width);
    lemma_span(y - 1, height);
    assert forall|cx: int, cy: int| 0 <= cx < width && 0 <= cy < height implies u.alive_next(cx, cy)
        == #[trigger] v.live.contains((cx, cy)) by {
        lemma_wrap_step(cx, width);
        lemma_wrap_step(cy, height);
    }
    lemma_step_by_cells(width, height, row_of_three(x, y), column_of_three(x + 1, y - 1));
}

/// On a torus at least four cells high, a column of three and the row of
/// three through its middle are different generations: the top of the column
/// is not in the row.
proof fn lemma_column_is_no_row(width: int, height: int, x: int, y: int)
    requires
        width >= 3,
        height >= 4,
    ensures
        Universe::seeded(width, height, column_of_three(x, y)) != Universe::seeded(
            width,
            height,
            row_of_three(x - 1, y + 1),
        ),
{
    let column = Universe::seeded(width, height, column_of_three(x, y));
    let row = Universe::seeded(width, height, row_of_three(x - 1, y + 1));
    lemma_cells(width, height, column_of_three(x, y));
    lemma_cells(width, height, row_of_three(x - 1, y + 1));
    lemma_span(y, height);
    assert(!row.live.contains((wrap(x, width), wrap(y, height))));
}

/// The blinker oscillates with period two: on a torus of at least four by
/// four cells, a column of three is the row of three through its middle after
/// every odd number of steps and itself again after every even number, and
/// the two are not the same.
pub proof fn lemma_blinker_oscillates(width: int, height: int, x: int, y: int, n: nat)
    requires
        width >= 4,
        height >= 4,
    ensures
        Universe::seeded(width, height, column_of_three(x, y)).after(n) == (if n % 2 == 0 {
            Universe::seeded(width, height, column_of_three(x, y))
        } else {
            Universe::seeded(width, height, row_of_three(x - 1, y + 1))
        }),
        Universe::seeded(width, height, row_of_three(x - 1, y + 1)).after(n) == (if n % 2 == 0 {
            Universe::seeded(width, height, row_of_three(x - 1, y + 1))
        } else {
            Universe::seeded(width, height, column_of_three(x, y))
        }),
        Universe::seeded(width, height, column_of_three(x, y)) != Universe::seeded(
            width,
            height,
            row_of_three(x - 1, y + 1),
        ),
    decreases n,
{
    lemma_column_is_no_row(width, height, x, y);
    if n > 0 {
        lemma_column_becomes_row(width, height, x, y);
        lemma_row_becomes_column(width, height, x - 1, y + 1);
        lemma_blinker_oscillates(width, height, x, y, (n - 1) as nat);
    }
}

/// The first of the four steps of a glider's cycle.
proof fn lemma_glider_first_step(width: int, height: int, x: int, y: int)
    requires
        width >= 5,
        height >= 5,
    ensures
        Universe::seeded(width, height, glider(x, y)).next() == Universe::seeded(
            width,
            height,
            glider_second(x, y),
        ),
{
    let u = Universe::seeded(width, height, glider(x, y));
    let v = Universe::seeded(width, height, glider_second(x, y));
    lemma_cells(width, height, glider(x, y));
    lemma_cells(width, height, glider_second(x, y));
    lemma_span(x, width);
    lemma_span(y, height);
    assert forall|cx: int, cy: int| 0 <= cx < width && 0 <= cy < height implies u.alive_next(cx, cy)
        == #[trigger] v.live.contains((cx, cy)) by {
        lemma_wrap_step(cx, width);
        lemma_wrap_step(cy, height);
    }
    lemma_step_by_cells(width, height, glider(x, y), glider_second(x, y));
}

/// The second of the four steps of a glider's cycle.
proof fn lemma_glider_second_step(width: int, height: int, x: int, y: int)
    requires
        width >= 5,
        height >= 5,
    ensures
        Universe::seeded(width, height, glider_second(x, y)).next() == Universe::seeded(
            width,
            height,
            glider_third(x, y),
        ),
{
    let u = Universe::seeded(width, height, glider_second(x, y));
    let v = Universe::seeded(width, height, glider_third(x, y));
    lemma_cells(width, height, glider_second(x, y));
    lemma_cells(width, height, glider_third(x, y));
    lemma_span(x, width);
    lemma_span(y, height);
    assert forall|cx: int, cy: int| 0 <= cx < width && 0 <= cy < height implies u.alive_next(cx, cy)
        == #[trigger] v.live.contains((cx, cy)) by {
        lemma_wrap_step(cx, width);
        lemma_wrap_step(cy, height);
    }
    lemma_step_by_cells(width, height, glider_second(x, y), glider_third(x, y));
}

/// The third of the four steps of a glider's cycle.
proof fn lemma_glider_third_step(width: int, height: int, x: int, y: int)
    requires
        width >= 5,
        height >= 5,
    ensures
        Universe::seeded(width, height, glider_third(x, y)).next() == Universe::seeded(
            width,
            height,
            glider_fourth(x, y),
        ),
{
    let u = Universe::seeded(width, height, glider_third(x, y));
    let v = Universe::seeded(width, height, glider_fourth(x, y));
    lemma_cells(width, height, glider_third(x, y));
    lemma_cells(width, height, glider_fourth(x, y));
    lemma_span(x, width);
    lemma_span(y, height);
    assert forall|cx: int, cy: int| 0 <= cx < width && 0 <= cy < height implies u.alive_next(cx, cy)
        == #[trigger] v.live.contains((cx, cy)) by {
        lemma_wrap_step(cx, width);
        lemma_wrap_step(cy, height);
    }
    lemma_step_by_cells(width, height, glider_third(x, y), glider_fourth(x, y));
}

/// The last of the four steps of a glider's cycle.
proof fn lemma_glider_fourth_step(width: int, height: int, x: int, y: int)
    requires
        width >= 5,
        height >= 5,
    ensures
        Universe::seeded(width, height, glider_fourth(x, y)).next() == Universe::seeded(
            width,
            height,
            glider(x + 1, y + 1),
        ),
{
    let u = Universe::seeded(width, height, glider_fourth(x, y));
    let v = Universe::seeded(width, height, glider(x + 1, y + 1));
    lemma_cells(width, height, glider_fourth(x, y));
    lemma_cells(width, height, glider(x + 1, y + 1));
    lemma_span(x, width);
    lemma_span(y, height);
    assert forall|cx: int, cy: int| 0 <= cx < width && 0 <= cy < height implies u.alive_next(cx, cy)
        == #[trigger] v.live.contains((cx, cy)) by {
        lemma_wrap_step(cx, width);
        lemma_wrap_step(cy, height);
    }
    lemma_step_by_cells(width, height, glider_fourth(x, y), glider(x + 1, y + 1));
}

/// The glider travels: on a torus of at least five by five cells, four steps
/// after a glider is seeded the same five-cell shape stands one cell further
/// right and one cell further down, wrapped round the torus, and nothing
/// else is alive. On the way it passes through its three other attitudes.
pub proof fn lemma_glider_travels(width: int, height: int, x: int, y: int)
    requires
        width >= 5,
        height >= 5,
    ensures
        Universe::seeded(width, height, glider(x, y)).after(1) == Universe::seeded(
            width,
            height,
            glider_second(x, y),
        ),
        Universe::seeded(width, height, glider(x, y)).after(2) == Universe::seeded(
            width,
            height,
            glider_third(x, y),
        ),
        Universe::seeded(width, height, glider(x, y)).after(3) == Universe::seeded(
            width,
            height,
            glider_fourth(x, y),
        ),
        Universe::seeded(width, height, glider(x, y)).after(4) == Universe::seeded(
            width,
            height,
            glider(x + 1, y + 1),
        ),
{
    lemma_glider_first_step(width, height, x, y);
    lemma_glider_second_step(width, height, x, y);
    lemma_glider_third_step(width, height, x, y);
    lemma_glider_fourth_step(width, height, x, y);
    reveal_with_fuel(Universe::after, 5);
}

/// The glider keeps travelling: after `4 * k` steps it stands `k` cells
/// further right and `k` cells further down.
pub proof fn lemma_glider_keeps_travelling(width: int, height: int, x: int, y: int, k: nat)
    requires
        width >= 5,
        height >= 5,
    ensures
        Universe::seeded(width, height, glider(x, y)).after(4 * k) == Universe::seeded(
            width,
            height,
            glider(x + k, y + k),
        ),
    decreases k,
{
    if k > 0 {
        let start = Universe::seeded(width, height, glider(x, y));
        lemma_glider_travels(width, height, x, y);
        start.lemma_after_add(4, (4 * (k - 1)) as nat);
        lemma_glider_keeps_travelling(width, height, x + 1, y + 1, (k - 1) as nat);
    }
}

} // verus!
