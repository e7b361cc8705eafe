//! Row-major indexing of a pixel grid.
use vstd::prelude::*;

verus! {

/// The cell of a `width` by `height` grid, stored row by row, in which the
/// pixel `(x, y)` falls. A coordinate past the last column or row is pulled
/// back to the last one.
pub open spec fn cell_index(x: int, y: int, width: int, height: int) -> int {
    let column = if x < width - 1 { x } else { width - 1 };
    let row = if y < height - 1 { y } else { height - 1 };
    row * width + column
}

/// Every cell index lies in the grid.
pub proof fn lemma_cell_index_in_grid(x: int, y: int, width: int, height: int)
    requires
        0 <= x,
        0 <= y,
        0 < width,
        0 < height,
    ensures
        0 <= cell_index(x, y, width, height) < width * height,
{
    let column = if x < width - 1 { x } else { width - 1 };
    let row = if y < height - 1 { y } else { height - 1 };
    assert(0 <= row * width && row * width + width <= height * width) by (nonlinear_arith)
        requires
            0 <= row <= height - 1,
            0 < width,
    ;
    assert(height * width == width * height) by (nonlinear_arith);
}

/// A pixel inside the grid has the cell `y * width + x`, and no other pixel
/// inside the grid shares it.
pub proof fn lemma_cell_index_inside(x: int, y: int, width: int, height: int)
    requires
        0 <= x < width,
        0 <= y < height,
    ensures
        cell_index(x, y, width, height) == y * width + x,
        forall|u: int, v: int|
            0 <= u < width && 0 <= v < height && #[trigger] cell_index(u, v, width, height)
                == cell_index(x, y, width, height) ==> u == x && v == y,
{
    assert forall|u: int, v: int|
        0 <= u < width && 0 <= v < height && #[trigger] cell_index(u, v, width, height)
            == cell_index(x, y, width, height) implies u == x && v == y by {
        assert(v * width + u == y * width + x);
        assert(v == y) by (nonlinear_arith)
            requires
                v * width + u == y * width + x,
                0 <= u < width,
                0 <= x < width,
        ;
    }
}

/// The index of pixel `(x, y)` in a row-major buffer of `width * height`
/// cells, with both coordinates pulled back into the grid.
pub fn xy2idx(x: usize, y: usize, width: usize, height: usize) -> (idx: usize)
    requires
        0 < width,
        0 < height,
        width * height <= usize::MAX,
    ensures
        idx == cell_index(x as int, y as int, width as int, height as int),
        idx < width * height,
{
    let column = if x < width - 1 { x } else { width - 1 };
    let row = if y < height - 1 { y } else { height - 1 };
    proof {
        lemma_cell_index_in_grid(x as int, y as int, width as int, height as int);
        assert(0 <= row * width) by (nonlinear_arith)
            requires
                0 <= row,
                0 <= width,
        ;
    }
    row * width + column
}

} // verus!
