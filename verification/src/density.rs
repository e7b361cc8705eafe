//! Density fields: how often an orbit visits each cell of a pixel grid,
//! relative to the busiest cell.
use crate::grid::{cell_index, lemma_cell_index_in_grid, xy2idx};
use crate::scalar::{Interval, Point, Scalar};
use vstd::prelude::*;

verus! {

/// The density of one cell: `visits / out_of`, a share of the visits that
/// the busiest cell received.
#[derive(Clone, Copy, PartialEq, Eq, Debug, Structural)]
pub struct Density {
    pub visits: usize,
    pub out_of: usize,
}

impl Density {
    /// The share is a number from 0 to 1: the division is defined and does
    /// not exceed one.
    pub open spec fn in_unit_range(self) -> bool {
        0 < self.out_of && self.visits <= self.out_of
    }

    /// The share is exactly 0: the cell was never visited.
    pub open spec fn is_zero(self) -> bool {
        self.visits == 0
    }

    /// The share is exactly 1: no cell was visited more often.
    pub open spec fn is_one(self) -> bool {
        self.visits == self.out_of
    }
}

/// The density of a cell with `visits` visits where the busiest cell has
/// `peak`. Where nothing was visited at all, every density is `0 / 1`.
pub open spec fn density_of(visits: nat, peak: nat) -> Density {
    if peak == 0 {
        Density { visits: 0, out_of: 1 }
    } else {
        Density { visits: visits as usize, out_of: peak as usize }
    }
}

/// How many of `pixels` fall into `cell` of a `width` by `height` grid.
pub open spec fn visits(pixels: Seq<(usize, usize)>, width: usize, height: usize, cell: int) -> nat
    decreases pixels.len(),
{
    if pixels.len() == 0 {
        0
    } else {
        let last = pixels.last();
        let rest = visits(pixels.drop_last(), width, height, cell);
        if cell_index(last.0 as int, last.1 as int, width as int, height as int) == cell {
            rest + 1
        } else {
            rest
        }
    }
}

/// The largest number of visits among the first `cells` cells.
pub open spec fn most_visits(
    pixels: Seq<(usize, usize)>,
    width: usize,
    height: usize,
    cells: nat,
) -> nat
    decreases cells,
{
    if cells == 0 {
        0
    } else {
        let rest = most_visits(pixels, width, height, (cells - 1) as nat);
        let here = visits(pixels, width, height, cells - 1);
        if here > rest {
            here
        } else {
            rest
        }
    }
}

/// The density field of `pixels`: for each cell, in row-major order, its
/// visits as a share of the visits to the busiest cell.
pub open spec fn field_of(pixels: Seq<(usize, usize)>, width: usize, height: usize) -> Seq<Density> {
    Seq::new(
        (width * height) as nat,
        |cell: int|
            density_of(
                visits(pixels, width, height, cell),
                most_visits(pixels, width, height, (width * height) as nat),
            ),
    )
}

/// One more pixel adds one visit to its own cell and none to the others.
pub proof fn lemma_visits_push(
    pixels: Seq<(usize, usize)>,
    pixel: (usize, usize),
    width: usize,
    height: usize,
    cell: int,
)
    ensures
        visits(pixels.push(pixel), width, height, cell) == visits(pixels, width, height, cell) + (if cell_index(
            pixel.0 as int,
            pixel.1 as int,
            width as int,
            height as int,
        ) == cell {
            1nat
        } else {
            0nat
        }),
{
    assert(pixels.push(pixel).drop_last() =~= pixels);
    assert(pixels.push(pixel).last() == pixel);
}

/// No cell has more visits than there are pixels.
pub proof fn lemma_visits_at_most_len(
    pixels: Seq<(usize, usize)>,
    width: usize,
    height: usize,
    cell: int,
)
    ensures
        visits(pixels, width, height, cell) <= pixels.len(),
    decreases pixels.len(),
{
    if pixels.len() > 0 {
        lemma_visits_at_most_len(pixels.drop_last(), width, height, cell);
    }
}

/// The visits of the first `cells` cells, added up.
pub open spec fn visits_in_all(
    pixels: Seq<(usize, usize)>,
    width: usize,
    height: usize,
    cells: nat,
) -> nat
    decreases cells,
{
    if cells == 0 {
        0
    } else {
        visits_in_all(pixels, width, height, (cells - 1) as nat) + visits(
            pixels,
            width,
            height,
            cells - 1,
        )
    }
}

/// One more pixel adds one to the sum over the first `cells` cells if its
/// own cell is among them, and nothing if not.
pub proof fn lemma_visits_in_all_push(
    pixels: Seq<(usize, usize)>,
    pixel: (usize, usize),
    width: usize,
    height: usize,
    cells: nat,
)
    ensures
        visits_in_all(pixels.push(pixel), width, height, cells) == visits_in_all(
            pixels,
            width,
            height,
            cells,
        ) + (if 0 <= cell_index(pixel.0 as int, pixel.1 as int, width as int, height as int)
            < cells {
            1nat
        } else {
            0nat
        }),
    decreases cells,
{
    if cells > 0 {
        lemma_visits_in_all_push(pixels, pixel, width, height, (cells - 1) as nat);
        lemma_visits_push(pixels, pixel, width, height, cells - 1);
    }
}

/// No pixel is lost and none is counted twice: on a grid that has cells,
/// the visits of all cells add up to the number of pixels.
pub proof fn lemma_every_pixel_counted(pixels: Seq<(usize, usize)>, width: usize, height: usize)
    requires
        0 < width,
        0 < height,
    ensures
        visits_in_all(pixels, width, height, (width * height) as nat) == pixels.len(),
    decreases pixels.len(),
{
    let cells = (width * height) as nat;
    if pixels.len() == 0 {
        assert(pixels =~= Seq::empty());
        lemma_nothing_visited(width, height, cells);
    } else {
        let last = pixels.last();
        lemma_every_pixel_counted(pixels.drop_last(), width, height);
        lemma_visits_in_all_push(pixels.drop_last(), last, width, height, cells);
        lemma_cell_index_in_grid(last.0 as int, last.1 as int, width as int, height as int);
        assert(pixels.drop_last().push(last) =~= pixels);
    }
}

/// Without pixels no cell is visited.
pub proof fn lemma_nothing_visited(width: usize, height: usize, cells: nat)
    ensures
        visits_in_all(Seq::empty(), width, height, cells) == 0,
    decreases cells,
{
    if cells > 0 {
        lemma_nothing_visited(width, height, (cells - 1) as nat);
    }
}

/// Once there is a pixel, some cell of a grid that has cells is visited.
pub proof fn lemma_some_cell_visited(pixels: Seq<(usize, usize)>, width: usize, height: usize)
    requires
        0 < width,
        0 < height,
        0 < pixels.len(),
    ensures
        exists|cell: int| 0 <= cell < width * height && #[trigger] visits(pixels, width, height, cell) > 0,
{
    let last = pixels.last();
    let cell = cell_index(last.0 as int, last.1 as int, width as int, height as int);
    lemma_cell_index_in_grid(last.0 as int, last.1 as int, width as int, height as int);
    assert(visits(pixels, width, height, cell) > 0);
}

/// `most_visits` is an upper bound on the visits of each cell it covers,
/// and some covered cell reaches it unless it is zero.
pub proof fn lemma_most_visits(pixels: Seq<(usize, usize)>, width: usize, height: usize, cells: nat)
    ensures
        forall|cell: int|
            0 <= cell < cells ==> #[trigger] visits(pixels, width, height, cell) <= most_visits(
                pixels,
                width,
                height,
                cells,
            ),
        most_visits(pixels, width, height, cells) > 0 ==> exists|cell: int|
            0 <= cell < cells && #[trigger] visits(pixels, width, height, cell) == most_visits(
                pixels,
                width,
                height,
                cells,
            ),
        most_visits(pixels, width, height, cells) <= pixels.len(),
    decreases cells,
{
    if cells > 0 {
        lemma_most_visits(pixels, width, height, (cells - 1) as nat);
        lemma_visits_at_most_len(pixels, width, height, cells - 1);
        let rest = most_visits(pixels, width, height, (cells - 1) as nat);
        let here = visits(pixels, width, height, cells - 1);
        if here > rest {
            assert(visits(pixels, width, height, cells - 1) == most_visits(pixels, width, height, cells));
        } else if rest > 0 {
            let witness = choose|cell: int|
                0 <= cell < cells - 1 && #[trigger] visits(pixels, width, height, cell) == rest;
            assert(visits(pixels, width, height, witness) == most_visits(pixels, width, height, cells));
        }
    }
}

/// A bound that every covered cell respects and that some covered cell
/// reaches (or that is zero) is `most_visits`.
pub proof fn lemma_most_visits_unique(
    pixels: Seq<(usize, usize)>,
    width: usize,
    height: usize,
    cells: nat,
    peak: nat,
)
    requires
        forall|cell: int| 0 <= cell < cells ==> #[trigger] visits(pixels, width, height, cell) <= peak,
        peak > 0 ==> exists|cell: int|
            0 <= cell < cells && #[trigger] visits(pixels, width, height, cell) == peak,
    ensures
        peak == most_visits(pixels, width, height, cells),
{
    lemma_most_visits(pixels, width, height, cells);
    let most = most_visits(pixels, width, height, cells);
    if most > 0 {
        let reached = choose|cell: int|
            0 <= cell < cells && #[trigger] visits(pixels, width, height, cell) == most;
        assert(visits(pixels, width, height, reached) <= peak);
    }
    if peak > 0 {
        let reached = choose|cell: int|
            0 <= cell < cells && #[trigger] visits(pixels, width, height, cell) == peak;
        assert(visits(pixels, width, height, reached) <= most);
    }
}

/// What holds of every density field: it has one density per cell, each a
/// number from 0 to 1; a density is 1 exactly in the cells that no other
/// cell outnumbers, and 0 exactly in the cells never visited; and once there
/// is a pixel, some cell has density 1.
pub proof fn lemma_field_normalized(pixels: Seq<(usize, usize)>, width: usize, height: usize)
    requires
        pixels.len() <= usize::MAX,
    ensures
        field_of(pixels, width, height).len() == width * height,
        forall|cell: int|
            0 <= cell < width * height ==> (#[trigger] field_of(
                pixels,
                width,
                height,
            )[cell]).in_unit_range(),
        forall|cell: int|
            0 <= cell < width * height ==> ((#[trigger] field_of(pixels, width, height)[cell]).is_one()
                <==> 0 < visits(pixels, width, height, cell) == most_visits(
                pixels,
                width,
                height,
                (width * height) as nat,
            )),
        forall|cell: int|
            0 <= cell < width * height ==> ((#[trigger] field_of(pixels, width, height)[cell]).is_zero()
                <==> visits(pixels, width, height, cell) == 0),
        0 < width && 0 < height && 0 < pixels.len() ==> exists|cell: int|
            0 <= cell < width * height && (#[trigger] field_of(pixels, width, height)[cell]).is_one(),
{
    let cells = (width * height) as nat;
    let most = most_visits(pixels, width, height, cells);
    lemma_most_visits(pixels, width, height, cells);
    assert forall|cell: int| 0 <= cell < width * height implies (#[trigger] field_of(
        pixels,
        width,
        height,
    )[cell]).in_unit_range() && (field_of(pixels, width, height)[cell].is_one() <==> 0 < visits(
        pixels,
        width,
        height,
        cell,
    ) == most) && (field_of(pixels, width, height)[cell].is_zero() <==> visits(
        pixels,
        width,
        height,
        cell,
    ) == 0) by {
        assert(visits(pixels, width, height, cell) <= most);
    }
    if 0 < width && 0 < height && 0 < pixels.len() {
        lemma_some_cell_visited(pixels, width, height);
        let visited = choose|cell: int|
            0 <= cell < width * height && #[trigger] visits(pixels, width, height, cell) > 0;
        assert(most > 0);
        let busiest = choose|cell: int|
            0 <= cell < cells && #[trigger] visits(pixels, width, height, cell) == most;
        assert(field_of(pixels, width, height)[busiest].is_one());
    }
}

/// A grid of visit counters that remembers its largest count.
pub struct Histogram {
    /// Cells per row.
    pub width: usize,
    /// Rows.
    pub height: usize,
    /// Visits per cell, row by row.
    pub counts: Vec<usize>,
    /// The largest count.
    pub peak: usize,
    /// How many pixels were recorded.
    pub total: usize,
}

impl Histogram {
    /// The counters cover the grid, `peak` is their maximum, and no counter
    /// exceeds the number of pixels recorded.
    pub open spec fn wf(&self) -> bool {
        &&& self.counts@.len() == self.width * self.height
        &&& forall|cell: int| 0 <= cell < self.counts@.len() ==> #[trigger] self.counts@[cell] <= self.peak
        &&& self.peak <= self.total
        &&& self.total > 0 ==> self.peak > 0
        &&& self.peak > 0 ==> exists|cell: int|
            0 <= cell < self.counts@.len() && #[trigger] self.counts@[cell] == self.peak
    }

    /// The counters are the visits of `pixels`, cell by cell.
    pub open spec fn counts_pixels(&self, pixels: Seq<(usize, usize)>) -> bool {
        &&& self.total == pixels.len()
        &&& forall|cell: int|
            0 <= cell < self.counts@.len() ==> #[trigger] self.counts@[cell] == visits(
                pixels,
                self.width,
                self.height,
                cell,
            )
    }

    /// A histogram of `width` by `height` cells with nothing recorded.
    pub fn new(width: usize, height: usize) -> (histogram: Histogram)
        requires
            width * height <= usize::MAX,
        ensures
            histogram.wf(),
            histogram.width == width,
            histogram.height == height,
            histogram.counts@ == Seq::new((width * height) as nat, |cell: int| 0usize),
            histogram.peak == 0,
            histogram.total == 0,
            histogram.counts_pixels(Seq::empty()),
    {
        let counts: Vec<usize> = vec![0; width * height];
        assert(counts@ =~= Seq::new((width * height) as nat, |cell: int| 0usize));
        Histogram { width, height, counts, peak: 0, total: 0 }
    }

    /// Counts one visit to the cell of pixel `(x, y)`, pulled back into
    /// the grid where it lies beyond the last column or row.
    pub fn record(&mut self, x: usize, y: usize)
        requires
            old(self).wf(),
            0 < old(self).width,
            0 < old(self).height,
            old(self).total < usize::MAX,
        ensures
            final(self).wf(),
            final(self).width == old(self).width,
            final(self).height == old(self).height,
            final(self).total == old(self).total + 1,
            ({
                let cell = cell_index(
                    x as int,
                    y as int,
                    old(self).width as int,
                    old(self).height as int,
                );
                &&& final(self).counts@ == old(self).counts@.update(
                    cell,
                    (old(self).counts@[cell] + 1) as usize,
                )
                &&& final(self).peak == if old(self).counts@[cell] + 1 > old(self).peak {
                    (old(self).counts@[cell] + 1) as usize
                } else {
                    old(self).peak
                }
            }),
            forall|pixels: Seq<(usize, usize)>|
                old(self).counts_pixels(pixels) ==> final(self).counts_pixels(
                    #[trigger] pixels.push((x, y)),
                ),
    {
        let cells = self.counts.len();
        assert(self.width * self.height == cells);
        let cell = xy2idx(x, y, self.width, self.height);
        let count = self.counts[cell] + 1;
        self.counts.set(cell, count);
        if count > self.peak {
            self.peak = count;
        }
        self.total = self.total + 1;
        proof {
            assert(self.counts@[cell as int] == count);
            if count <= old(self).peak {
                let before = *old(self);
                let reached = choose|k: int|
                    0 <= k < before.counts@.len() && #[trigger] before.counts@[k] == before.peak;
                assert(self.counts@[reached] == self.peak);
            }
            assert forall|pixels: Seq<(usize, usize)>|
                old(self).counts_pixels(pixels) implies self.counts_pixels(
                #[trigger] pixels.push((x, y)),
            ) by {
                assert forall|other: int| 0 <= other < self.counts@.len() implies #[trigger] self.counts@[other]
                    == visits(pixels.push((x, y)), self.width, self.height, other) by {
                    lemma_visits_push(pixels, (x, y), self.width, self.height, other);
                }
            }
        }
    }

    /// The density of every cell, row by row: its count as a share of the
    /// largest count, or `0 / 1` everywhere while nothing is recorded.
    pub fn normalize(&self) -> (densities: Vec<Density>)
        requires
            self.wf(),
        ensures
            densities@ == Seq::new(
                self.counts@.len(),
                |cell: int| density_of(self.counts@[cell] as nat, self.peak as nat),
            ),
            forall|cell: int|
                0 <= cell < densities@.len() ==> (#[trigger] densities@[cell]).in_unit_range(),
            forall|pixels: Seq<(usize, usize)>|
                self.counts_pixels(pixels) ==> densities@ == #[trigger] field_of(
                    pixels,
                    self.width,
                    self.height,
                ),
    {
        let mut densities: Vec<Density> = Vec::new();
        let mut cell: usize = 0;
        while cell < self.counts.len()
            invariant
                cell <= self.counts@.len(),
                densities@ == Seq::new(
                    cell as nat,
                    |k: int| density_of(self.counts@[k] as nat, self.peak as nat),
                ),
            decreases self.counts@.len() - cell,
        {
            let density = if self.peak == 0 {
                Density { visits: 0, out_of: 1 }
            } else {
                Density { visits: self.counts[cell], out_of: self.peak }
            };
            densities.push(density);
            cell += 1;
            assert(densities@ =~= Seq::new(
                cell as nat,
                |k: int| density_of(self.counts@[k] as nat, self.peak as nat),
            ));
        }
        proof {
            assert forall|pixels: Seq<(usize, usize)>| self.counts_pixels(pixels) implies densities@
                == #[trigger] field_of(pixels, self.width, self.height) by {
                let cells = (self.width * self.height) as nat;
                assert forall|k: int| 0 <= k < cells implies #[trigger] visits(
                    pixels,
                    self.width,
                    self.height,
                    k,
                ) <= self.peak by {
                    assert(self.counts@[k] <= self.peak);
                }
                if self.peak > 0 {
                    let reached = choose|k: int|
                        0 <= k < self.counts@.len() && #[trigger] self.counts@[k] == self.peak;
                    assert(visits(pixels, self.width, self.height, reached) == self.peak);
                }
                lemma_most_visits_unique(pixels, self.width, self.height, cells, self.peak as nat);
                assert(densities@ =~= field_of(pixels, self.width, self.height));
            }
        }
        densities
    }
}

/// `pixels` holds, for each position of `history` in order, a column that
/// `scale` returned for its `x` over `x_range` and `width` columns, and a row
/// that it returned for its `y` over `y_range` and `height` rows.
pub open spec fn is_located<S: Fn(Scalar, Interval, usize) -> usize>(
    pixels: Seq<(usize, usize)>,
    history: Seq<Point>,
    x_range: Interval,
    y_range: Interval,
    width: usize,
    height: usize,
    scale: S,
) -> bool {
    &&& pixels.len() == history.len()
    &&& forall|i: int|
        0 <= i < history.len() ==> {
            &&& scale.ensures((history[i].x, x_range, width), (#[trigger] pixels[i]).0)
            &&& scale.ensures((history[i].y, y_range, height), pixels[i].1)
        }
}

/// `densities` is the density field of `history` on a `width` by `height`
/// grid, with each position mapped to a pixel by `scale`. A grid without
/// cells has the empty field.
pub open spec fn is_density_field<S: Fn(Scalar, Interval, usize) -> usize>(
    densities: Seq<Density>,
    history: Seq<Point>,
    x_range: Interval,
    y_range: Interval,
    width: usize,
    height: usize,
    scale: S,
) -> bool {
    if width == 0 || height == 0 {
        densities.len() == 0
    } else {
        exists|pixels: Seq<(usize, usize)>|
            is_located(pixels, history, x_range, y_range, width, height, scale) && densities
                == #[trigger] field_of(pixels, width, height)
    }
}

/// What holds of the density field of any history, whatever `scale` does:
/// one density per cell, each a number from 0 to 1, and, once the grid has
/// cells and the history a position, a cell of density exactly 1. The cells
/// of density 1 are those that counting the pixels cell by cell finds
/// busiest.
pub proof fn lemma_density_field_normalized<S: Fn(Scalar, Interval, usize) -> usize>(
    densities: Seq<Density>,
    history: Seq<Point>,
    x_range: Interval,
    y_range: Interval,
    width: usize,
    height: usize,
    scale: S,
)
    requires
        history.len() <= usize::MAX,
        is_density_field(densities, history, x_range, y_range, width, height, scale),
    ensures
        densities.len() == width * height,
        forall|cell: int| 0 <= cell < densities.len() ==> (#[trigger] densities[cell]).in_unit_range(),
        0 < width && 0 < height && 0 < history.len() ==> exists|cell: int|
            0 <= cell < densities.len() && (#[trigger] densities[cell]).is_one(),
        0 < width && 0 < height ==> exists|pixels: Seq<(usize, usize)>|
            {
                &&& #[trigger] is_located(pixels, history, x_range, y_range, width, height, scale)
                &&& forall|cell: int|
                    0 <= cell < densities.len() ==> ((#[trigger] densities[cell]).is_one() <==> 0
                        < visits(pixels, width, height, cell) == most_visits(
                        pixels,
                        width,
                        height,
                        (width * height) as nat,
                    ))
            },
{
    if width == 0 || height == 0 {
        assert(width * height == 0) by (nonlinear_arith)
            requires
                width == 0 || height == 0,
        ;
    } else {
        let pixels = choose|pixels: Seq<(usize, usize)>|
            is_located(pixels, history, x_range, y_range, width, height, scale) && densities
                == #[trigger] field_of(pixels, width, height);
        lemma_field_normalized(pixels, width, height);
    }
}

/// The density field of `history`: a two-pass histogram. Each position is
/// mapped to a pixel, `scale` giving its column from `x` and its row from
/// `y`; a pixel beyond the last column or row counts for the last one. Each
/// cell's count is then taken as a share of the largest count.
pub fn density_field<S: Fn(Scalar, Interval, usize) -> usize>(
    history: &Vec<Point>,
    x_range: Interval,
    y_range: Interval,
    width: usize,
    height: usize,
    scale: S,
) -> (densities: Vec<Density>)
    requires
        width * height <= usize::MAX,
        forall|value: Scalar, range: Interval, cells: usize| scale.requires((value, range, cells)),
    ensures
        is_density_field(densities@, history@, x_range, y_range, width, height, scale),
        densities@.len() == width * height,
        forall|cell: int|
            0 <= cell < densities@.len() ==> (#[trigger] densities@[cell]).in_unit_range(),
        0 < width && 0 < height && 0 < history@.len() ==> exists|cell: int|
            0 <= cell < densities@.len() && (#[trigger] densities@[cell]).is_one(),
{
    if width == 0 || height == 0 {
        let densities: Vec<Density> = Vec::new();
        proof {
            assert(history@.len() == history.len());
            lemma_density_field_normalized(
                densities@,
                history@,
                x_range,
                y_range,
                width,
                height,
                scale,
            );
        }
        return densities;
    }
    let mut histogram = Histogram::new(width, height);
    let ghost mut pixels: Seq<(usize, usize)> = Seq::empty();
    let mut i: usize = 0;
    while i < history.len()
        invariant
            forall|value: Scalar, range: Interval, cells: usize|
                scale.requires((value, range, cells)),
            0 < width,
            0 < height,
            i <= history@.len(),
            histogram.wf(),
            histogram.width == width,
            histogram.height == height,
            histogram.counts_pixels(pixels),
            is_located(pixels, history@.take(i as int), x_range, y_range, width, height, scale),
        decreases history@.len() - i,
    {
        let position = history[i];
        let column = scale(position.x, x_range, width);
        let row = scale(position.y, y_range, height);
        histogram.record(column, row);
        proof {
            pixels = pixels.push((column, row));
            assert(history@.take(i + 1) =~= history@.take(i as int).push(position));
        }
        i += 1;
    }
    let densities = histogram.normalize();
    proof {
        assert(history@.take(i as int) =~= history@);
        assert(densities@ == field_of(pixels, width, height));
        lemma_density_field_normalized(densities@, history@, x_range, y_range, width, height, scale);
    }
    densities
}

/// `densities` is the density field of `history` over the ranges that
/// `expand` returned for `x_range` and for `y_range` with the margin
/// `border`.
pub open spec fn is_bordered_density_field<
    X: Fn(Interval, Scalar) -> Interval,
    S: Fn(Scalar, Interval, usize) -> usize,
>(
    densities: Seq<Density>,
    history: Seq<Point>,
    x_range: Interval,
    y_range: Interval,
    width: usize,
    height: usize,
    border: Scalar,
    expand: X,
    scale: S,
) -> bool {
    exists|wide_x: Interval, wide_y: Interval|
        {
            &&& expand.ensures((x_range, border), wide_x)
            &&& expand.ensures((y_range, border), wide_y)
            &&& #[trigger] is_density_field(
                densities,
                history,
                wide_x,
                wide_y,
                width,
                height,
                scale,
            )
        }
}

/// The density field of `history` with a margin: `expand` widens each range
/// by the `border` fraction on both sides, and the field is taken over the
/// widened ranges, so that the orbit keeps clear of the grid's edges.
pub fn density_field_with_border<
    X: Fn(Interval, Scalar) -> Interval,
    S: Fn(Scalar, Interval, usize) -> usize,
>(
    history: &Vec<Point>,
    x_range: Interval,
    y_range: Interval,
    width: usize,
    height: usize,
    border: Scalar,
    expand: X,
    scale: S,
) -> (densities: Vec<Density>)
    requires
        width * height <= usize::MAX,
        expand.requires((x_range, border)),
        expand.requires((y_range, border)),
        forall|value: Scalar, range: Interval, cells: usize| scale.requires((value, range, cells)),
    ensures
        is_bordered_density_field(
            densities@,
            history@,
            x_range,
            y_range,
            width,
            height,
            border,
            expand,
            scale,
        ),
        densities@.len() == width * height,
        forall|cell: int|
            0 <= cell < densities@.len() ==> (#[trigger] densities@[cell]).in_unit_range(),
        0 < width && 0 < height && 0 < history@.len() ==> exists|cell: int|
            0 <= cell < densities@.len() && (#[trigger] densities@[cell]).is_one(),
{
    let wide_x = expand(x_range, border);
    let wide_y = expand(y_range, border);
    let densities = density_field(history, wide_x, wide_y, width, height, scale);
    assert(is_density_field(densities@, history@, wide_x, wide_y, width, height, scale));
    densities
}

} // verus!
