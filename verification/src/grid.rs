//! Row-major grid geometry: index arithmetic and Moore adjacency.

use vstd::prelude::*;
use vstd::arithmetic::div_mod::lemma_fundamental_div_mod_converse;

verus! {

/// `(x2, y2)` is one of the up-to-8 Moore neighbours of `(x1, y1)`.
pub open spec fn adjacent(x1: int, y1: int, x2: int, y2: int) -> bool {
    &&& -1 <= x2 - x1 <= 1
    &&& -1 <= y2 - y1 <= 1
    &&& !(x1 == x2 && y1 == y2)
}

/// `(x2, y2)` lies in the 9-cell neighbourhood of `(x1, y1)`, centre included.
pub open spec fn near(x1: int, y1: int, x2: int, y2: int) -> bool {
    &&& -1 <= x2 - x1 <= 1
    &&& -1 <= y2 - y1 <= 1
}

/// In a `w`-wide, `h`-tall row-major grid, the cell `(x, y)` has the index
/// `y * w + x`; that index is in range and decodes back to `(x, y)`.
pub proof fn lemma_row_major(x: int, y: int, w: int, h: int)
    requires
        0 <= x < w,
        0 <= y < h,
    ensures
        0 <= y * w + x < h * w,
        (y * w + x) % w == x,
        (y * w + x) / w == y,
{
    assert(0 <= y * w + x < h * w) by (nonlinear_arith)
        requires
            0 <= x < w,
            0 <= y < h,
    ;
    lemma_fundamental_div_mod_converse(y * w + x, w, y, x);
}

/// A row-major index below `h * w` decodes to in-bounds coordinates
/// `(i % w, i / w)` that encode back to `i`.
pub proof fn lemma_row_major_decode(i: int, w: int, h: int)
    requires
        1 <= w,
        1 <= h,
        0 <= i < h * w,
    ensures
        0 <= i % w < w,
        0 <= i / w < h,
        (i / w) * w + (i % w) == i,
{
    vstd::arithmetic::div_mod::lemma_fundamental_div_mod(i, w);
    vstd::arithmetic::mul::lemma_mul_is_commutative(i / w, w);
    assert(0 <= i % w < w) by {
        vstd::arithmetic::div_mod::lemma_mod_bound(i, w);
    }
    assert(0 <= i / w < h) by (nonlinear_arith)
        requires
            1 <= w,
            1 <= h,
            0 <= i < h * w,
            i == w * (i / w) + i % w,
            0 <= i % w < w,
    ;
}

/// Distinct in-bounds coordinates decode from distinct row-major indices.
pub proof fn lemma_row_major_injective(x1: int, y1: int, x2: int, y2: int, w: int, h: int)
    requires
        0 <= x1 < w,
        0 <= y1 < h,
        0 <= x2 < w,
        0 <= y2 < h,
        y1 * w + x1 == y2 * w + x2,
    ensures
        x1 == x2 && y1 == y2,
{
    lemma_row_major(x1, y1, w, h);
    lemma_row_major(x2, y2, w, h);
}

} // verus!
