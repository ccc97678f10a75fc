//! Row-major addressing of a rectangular grid, and wraparound of coordinates.

use vstd::prelude::*;

verus! {

/// Offset of cell `(x, y)` in a flat buffer whose rows are `width` cells long.
pub open spec fn row_major(width: int, x: int, y: int) -> int {
    y * width + x
}

/// The dimensions a grid may have: at least one cell each way, and a number
/// of cells that a `usize` can hold.
pub open spec fn dimensions_ok(width: int, height: int) -> bool {
    &&& width >= 1
    &&& height >= 1
    &&& width * height <= usize::MAX
}

/// The coordinate in `0..n` that `v` lands on when the axis is closed into a
/// ring of `n` cells (the Euclidean remainder, never negative).
pub open spec fn wrap(v: int, n: int) -> int {
    v % n
}

/// An in-range cell has an in-range offset.
pub proof fn lemma_row_major_bounds(width: int, height: int, x: int, y: int)
    requires
        0 <= x < width,
        0 <= y < height,
    ensures
        0 <= row_major(width, x, y) < width * height,
{
    assert(0 <= y * width && y * width + width <= height * width) by (nonlinear_arith)
        requires
            0 <= y < height,
            0 < width,
    ;
    assert(height * width == width * height) by (nonlinear_arith);
}

/// Two cells of a row-major grid share an offset only if they are the same
/// cell.
pub proof fn lemma_row_major_injective(width: int, x1: int, y1: int, x2: int, y2: int)
    requires
        0 <= x1 < width,
        0 <= x2 < width,
        row_major(width, x1, y1) == row_major(width, x2, y2),
    ensures
        x1 == x2,
        y1 == y2,
{
    assert(y1 == y2) by (nonlinear_arith)
        requires
            0 <= x1 < width,
            0 <= x2 < width,
            y1 * width + x1 == y2 * width + x2,
    ;
}

/// Every offset below `width * height` is the offset of exactly the in-range
/// cell `(i % width, i / width)`.
pub proof fn lemma_row_major_inverse(width: int, height: int, i: int)
    requires
        width >= 1,
        0 <= i < width * height,
    ensures
        0 <= i % width < width,
        0 <= i / width < height,
        row_major(width, i % width, i / width) == i,
{
    vstd::arithmetic::div_mod::lemma_fundamental_div_mod(i, width);
    vstd::arithmetic::div_mod::lemma_mod_bound(i, width);
    let q = i / width;
    let r = i % width;
    assert(width * q == q * width) by (nonlinear_arith);
    assert(0 <= q < height) by (nonlinear_arith)
        requires
            width >= 1,
            0 <= r < width,
            0 <= q * width + r < width * height,
    ;
}

/// Wrapping leaves an in-range coordinate alone, sends the step past the last
/// cell to the first, and the step before the first cell to the last.
pub proof fn lemma_wrap_step(x: int, n: int)
    requires
        0 <= x < n,
    ensures
        wrap(x, n) == x,
        wrap(x + 1, n) == (if x + 1 == n { 0 } else { x + 1 }),
        wrap(x - 1, n) == (if x == 0 { n - 1 } else { x - 1 }),
{
    vstd::arithmetic::div_mod::lemma_small_mod(x as nat, n as nat);
    if x + 1 == n {
        vstd::arithmetic::div_mod::lemma_mod_self_0(n);
    } else {
        vstd::arithmetic::div_mod::lemma_small_mod((x + 1) as nat, n as nat);
    }
    if x == 0 {
        vstd::arithmetic::div_mod::lemma_mod_add_multiples_vanish(-1, n);
        vstd::arithmetic::div_mod::lemma_small_mod((n - 1) as nat, n as nat);
    } else {
        vstd::arithmetic::div_mod::lemma_small_mod((x - 1) as nat, n as nat);
    }
}

/// Wrapping lands in `0..n`, and going once more round the ring in either
/// direction changes nothing.
pub proof fn lemma_wrap_periodic(v: int, n: int)
    requires
        n >= 1,
    ensures
        0 <= wrap(v, n) < n,
        wrap(v + n, n) == wrap(v, n),
        wrap(v - n, n) == wrap(v, n),
        wrap(wrap(v, n), n) == wrap(v, n),
{
    vstd::arithmetic::div_mod::lemma_mod_bound(v, n);
    vstd::arithmetic::div_mod::lemma_mod_add_multiples_vanish(v, n);
    vstd::arithmetic::div_mod::lemma_mod_sub_multiples_vanish(v, n);
    vstd::arithmetic::div_mod::lemma_small_mod(wrap(v, n) as nat, n as nat);
}

/// Shifting a coordinate and then wrapping is the same as wrapping, shifting
/// and wrapping again.
pub proof fn lemma_wrap_shift(v: int, k: int, n: int)
    requires
        n >= 1,
    ensures
        wrap(wrap(v, n) + k, n) == wrap(v + k, n),
{
    vstd::arithmetic::div_mod::lemma_add_mod_noop_right(k, v, n);
}

/// Where a coordinate lands `k` cells further along a ring of `n` cells, for
/// a `k` of at most one full turn: `k` cells on from where the coordinate
/// itself lands, less one turn if that passes the last cell.
pub proof fn lemma_wrap_offset(v: int, k: int, n: int)
    requires
        n >= 1,
        0 <= k <= n,
    ensures
        wrap(v + k, n) == (if wrap(v, n) + k < n {
            wrap(v, n) + k
        } else {
            wrap(v, n) + k - n
        }),
{
    lemma_wrap_shift(v, k, n);
    lemma_wrap_periodic(v, n);
    let r = wrap(v, n) + k;
    if r < n {
        vstd::arithmetic::div_mod::lemma_small_mod(r as nat, n as nat);
    } else {
        lemma_wrap_periodic(r - n, n);
        vstd::arithmetic::div_mod::lemma_small_mod((r - n) as nat, n as nat);
    }
}

/// Tells whether a grid of `width` by `height` cells can be allocated.
pub fn dimensions_fit(width: usize, height: usize) -> (fit: bool)
    ensures
        fit == dimensions_ok(width as int, height as int),
{
    width >= 1 && height >= 1 && width.checked_mul(height).is_some()
}

/// Offset of the in-range cell `(x, y)` in the flat buffer of a `width` by
/// `height` grid.
pub fn cell_index(width: usize, height: usize, x: usize, y: usize) -> (index: usize)
    requires
        x < width,
        y < height,
        width * height <= usize::MAX,
    ensures
        index == row_major(width as int, x as int, y as int),
        index < width * height,
{
    proof {
        lemma_row_major_bounds(width as int, height as int, x as int, y as int);
        assert(0 <= (y as int) * (width as int)) by (nonlinear_arith)
            requires
                0 <= y,
                0 <= width,
        ;
    }
    y * width + x
}

/// The coordinate one step before `x` on a ring of `n` cells.
pub fn ring_pred(x: usize, n: usize) -> (p: usize)
    requires
        x < n,
    ensures
        p == wrap(x - 1, n as int),
        p < n,
{
    proof {
        lemma_wrap_step(x as int, n as int);
    }
    if x == 0 {
        n - 1
    } else {
        x - 1
    }
}

/// The coordinate one step after `x` on a ring of `n` cells.
pub fn ring_succ(x: usize, n: usize) -> (s: usize)
    requires
        x < n,
    ensures
        s == wrap(x + 1, n as int),
        s < n,
{
    proof {
        lemma_wrap_step(x as int, n as int);
    }
    if x + 1 == n {
        0
    } else {
        x + 1
    }
}

} // verus!
