//! How the coordinates of a grid are laid out over its cells.

use vstd::prelude::*;

verus! {

use vstd::arithmetic::div_mod::lemma_fundamental_div_mod;
use vstd::arithmetic::div_mod::lemma_multiply_divide_lt;

/// The cell index of the coordinate `(x, y)` in a grid of the given width.
pub open spec fn spec_ndx(x: int, y: int, width: int) -> int {
    x * width + y
}

/// Whether `(x, y)` lies on a grid of the given dimensions.
pub open spec fn in_grid(x: int, y: int, width: int, height: int) -> bool {
    0 <= x < width && 0 <= y < height
}

/// Whether a grid of `width * height` cells gives every coordinate a cell of
/// its own: the cell index of each coordinate falls inside the grid, and no
/// two coordinates share one.
pub open spec fn grid_addressable(width: int, height: int) -> bool {
    &&& 0 <= width
    &&& 0 <= height
    &&& width * height <= usize::MAX
    &&& forall|x: int, y: int|
        in_grid(x, y, width, height) ==> 0 <= #[trigger] spec_ndx(x, y, width) < width * height
    &&& forall|x1: int, y1: int, x2: int, y2: int|
        #![trigger spec_ndx(x1, y1, width), spec_ndx(x2, y2, width)]
        in_grid(x1, y1, width, height) && in_grid(x2, y2, width, height) && spec_ndx(
            x1,
            y1,
            width,
        ) == spec_ndx(x2, y2, width) ==> x1 == x2 && y1 == y2
}

/// The arithmetic form of [`grid_addressable`]: the grid is square, or has
/// at most one column, or has no row.
pub open spec fn square_or_thin(width: int, height: int) -> bool {
    &&& 0 <= width
    &&& 0 <= height
    &&& width * height <= usize::MAX
    &&& (width == height || width <= 1 || height == 0)
}

/// The coordinates of an addressable grid are machine integers.
pub proof fn lemma_coordinates_fit(x: int, y: int, width: int, height: int)
    requires
        grid_addressable(width, height),
        in_grid(x, y, width, height),
    ensures
        width <= usize::MAX,
        height <= usize::MAX,
        x as usize == x,
        y as usize == y,
{
    assert(width <= width * height && height <= width * height) by (nonlinear_arith)
        requires
            width >= 1,
            height >= 1,
    ;
}

/// A grid is addressable exactly when it is square, has at most one column,
/// or has no row, and its cells can be counted in a `usize`.
pub proof fn lemma_addressable_iff(width: int, height: int)
    ensures
        grid_addressable(width, height) <==> square_or_thin(width, height),
{
    if square_or_thin(width, height) {
        assert forall|x: int, y: int| in_grid(x, y, width, height) implies 0 <= #[trigger] spec_ndx(
            x,
            y,
            width,
        ) < width * height by {
            lemma_ndx_fits(x, y, width, height);
        }
        assert forall|x1: int, y1: int, x2: int, y2: int|
            #![trigger spec_ndx(x1, y1, width), spec_ndx(x2, y2, width)]
            in_grid(x1, y1, width, height) && in_grid(x2, y2, width, height) && spec_ndx(
                x1,
                y1,
                width,
            ) == spec_ndx(x2, y2, width) implies x1 == x2 && y1 == y2 by {
            lemma_ndx_distinct(x1, y1, x2, y2, width, height);
        }
    }
    if grid_addressable(width, height) && !square_or_thin(width, height) {
        // width >= 2, height >= 1 and width != height
        if height > width {
            assert(spec_ndx(0, width, width) == spec_ndx(1, 0, width)) by (nonlinear_arith);
        } else {
            assert(spec_ndx(width - 1, 0, width) >= width * height) by (nonlinear_arith)
                requires
                    width >= 2,
                    1 <= height < width,
            ;
        }
    }
}

/// On a square or thin grid the cell of a coordinate falls inside the grid.
proof fn lemma_ndx_fits(x: int, y: int, width: int, height: int)
    requires
        square_or_thin(width, height),
        in_grid(x, y, width, height),
    ensures
        0 <= spec_ndx(x, y, width) < width * height,
{
    if width == height {
        assert(0 <= x * width + y < width * height) by (nonlinear_arith)
            requires
                0 <= x < width,
                0 <= y < width,
                width == height,
        ;
    } else {
        assert(x * width + y == y && width * height == height) by (nonlinear_arith)
            requires
                width == 1,
                x == 0,
        ;
    }
}

/// On a square or thin grid no two coordinates share a cell.
proof fn lemma_ndx_distinct(x1: int, y1: int, x2: int, y2: int, width: int, height: int)
    requires
        square_or_thin(width, height),
        in_grid(x1, y1, width, height),
        in_grid(x2, y2, width, height),
        spec_ndx(x1, y1, width) == spec_ndx(x2, y2, width),
    ensures
        x1 == x2,
        y1 == y2,
{
    if width == height {
        assert(x1 == x2 && y1 == y2) by (nonlinear_arith)
            requires
                0 <= x1 < width,
                0 <= y1 < width,
                0 <= x2 < width,
                0 <= y2 < width,
                x1 * width + y1 == x2 * width + y2,
        ;
    } else {
        assert(x1 * width + y1 == y1 && x2 * width + y2 == y2) by (nonlinear_arith)
            requires
                x1 == 0,
                x2 == 0,
        ;
    }
}

/// Every cell of an addressable grid is the cell of a coordinate.
pub proof fn lemma_cell_has_coordinate(k: int, width: int, height: int) -> (c: (int, int))
    requires
        grid_addressable(width, height),
        0 <= k < width * height,
    ensures
        in_grid(c.0, c.1, width, height),
        spec_ndx(c.0, c.1, width) == k,
{
    lemma_addressable_iff(width, height);
    if width == height {
        lemma_fundamental_div_mod(k, width);
        lemma_multiply_divide_lt(k, width, width);
        (k / width, k % width)
    } else {
        assert(width == 1) by (nonlinear_arith)
            requires
                0 <= k < width * height,
                0 <= width,
                0 <= height,
                width <= 1 || height == 0,
        ;
        (0, k)
    }
}

} // verus!
