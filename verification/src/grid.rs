//! Row-major addressing of a rectangular grid of cells.

use vstd::prelude::*;

verus! {

/// Whether `(x, y)` is a cell of a grid `w` wide and `h` high.
pub open spec fn in_grid(w: int, h: int, x: int, y: int) -> bool {
    0 <= x < w && 0 <= y < h
}

/// The place of the cell `(x, y)` in a row-major grid `w` wide.
pub open spec fn cell(w: int, x: int, y: int) -> int {
    x + y * w
}

/// Every cell of the grid has a place below `w * h`.
pub proof fn lemma_cell_in_range(w: int, h: int, x: int, y: int)
    requires
        in_grid(w, h, x, y),
    ensures
        0 <= cell(w, x, y) < w * h,
{
    assert(y * w >= 0) by (nonlinear_arith)
        requires
            y >= 0,
            w >= 0,
    ;
    assert(x + y * w < w * h) by (nonlinear_arith)
        requires
            0 <= x < w,
            0 <= y < h,
    ;
}

/// Two cells of the grid with the same place are the same cell.
pub proof fn lemma_cell_unique(w: int, h: int, x1: int, y1: int, x2: int, y2: int)
    requires
        in_grid(w, h, x1, y1),
        in_grid(w, h, x2, y2),
        cell(w, x1, y1) == cell(w, x2, y2),
    ensures
        x1 == x2,
        y1 == y2,
{
    assert(y1 == y2) by (nonlinear_arith)
        requires
            0 <= x1 < w,
            0 <= x2 < w,
            x1 + y1 * w == x2 + y2 * w,
    ;
    assert(y1 * w == y2 * w);
}

/// The place of a cell, computed.
pub fn cell_index(w: i32, h: i32, x: i32, y: i32) -> (i: usize)
    requires
        in_grid(w as int, h as int, x as int, y as int),
        w * h <= i32::MAX,
    ensures
        i == cell(w as int, x as int, y as int),
        i < w * h,
{
    proof {
        lemma_cell_in_range(w as int, h as int, x as int, y as int);
        assert(0 <= y * w <= w * h) by (nonlinear_arith)
            requires
                0 <= y < h,
                0 <= w,
        ;
    }
    (x + y * w) as usize
}

/// A vector of `n` copies of `value`.
pub fn filled<T: Copy>(value: T, n: usize) -> (v: Vec<T>)
    ensures
        v@.len() == n,
        forall|i: int| 0 <= i < n ==> v@[i] == value,
{
    let mut v: Vec<T> = Vec::new();
    let mut i: usize = 0;
    while i < n
        invariant
            i <= n,
            v@.len() == i,
            forall|j: int| 0 <= j < i ==> v@[j] == value,
        decreases n - i,
    {
        v.push(value);
        i = i + 1;
    }
    v
}

} // verus!
