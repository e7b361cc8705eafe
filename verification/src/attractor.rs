//! What every strange attractor can do.
use crate::density::{is_bordered_density_field, is_density_field, Density};
use crate::orbit::{is_orbit_extension, iterations};
use crate::orbit_text::is_orbit_text;
use crate::scalar::{Interval, Parameters, Point, Scalar};
use vstd::prelude::*;
use vstd::string::StringSliceAdditionalSpecFns;

verus! {

/// Why an attractor refused its parameters.
#[derive(Clone, Copy, PartialEq, Eq, Debug, Structural)]
pub enum AttractorError {
    /// The attractor takes `expected` parameters and was given `given`.
    InvalidArity { expected: usize, given: usize },
}

/// A parameter after an update: the new value where one is given, the
/// current one where none is.
pub open spec fn updated(current: Scalar, change: Option<Scalar>) -> Scalar {
    match change {
        Some(value) => value,
        None => current,
    }
}

/// A planar strange attractor: a recurrence with four parameters, the
/// position it stands at, the box that its orbit stays in, and every position
/// visited since the last reset.
///
/// The recurrence itself, like every other operation on reals, is handed in
/// by the caller; an attractor owns the bookkeeping around it.
pub trait Attractor: Sized {
    /// The name that orbit files carry, matching `[a-zA-Z]+`.
    const NAME: &'static str;

    /// The number of dimensions the attractor lives in.
    const DIMENSIONALITY: u8;

    /// The number of parameters of the recurrence.
    const NUM_PARAMETERS: u8;

    /// The current parameters.
    spec fn parameters(&self) -> Parameters;

    /// The current position.
    spec fn position(&self) -> Point;

    /// The range that bounds the orbit's `x`.
    spec fn x_range(&self) -> Interval;

    /// The range that bounds the orbit's `y`.
    spec fn y_range(&self) -> Interval;

    /// Every position visited since the last reset, oldest first.
    spec fn history(&self) -> Seq<Point>;

    /// The history is not empty and begins at the origin.
    open spec fn wf(&self) -> bool {
        self.history().len() >= 1 && self.history()[0] == Point::spec_origin()
    }

    /// Iterates `formula` from the current position, `num_steps - 1` times:
    /// each new position is appended to the history and becomes the current
    /// one. Asking for no step or for one step changes nothing.
    fn step<F: Fn(Parameters, Point) -> Point>(&mut self, num_steps: usize, formula: F)
        requires
            forall|at: Point| formula.requires((old(self).parameters(), at)),
        ensures
            final(self).parameters() == old(self).parameters(),
            final(self).x_range() == old(self).x_range(),
            final(self).y_range() == old(self).y_range(),
            final(self).history().len() == old(self).history().len() + iterations(num_steps),
            is_orbit_extension(
                old(self).history(),
                old(self).position(),
                final(self).history(),
                final(self).position(),
                old(self).parameters(),
                formula,
            ),
            num_steps <= 1 ==> {
                &&& final(self).history() == old(self).history()
                &&& final(self).position() == old(self).position()
            },
            old(self).wf() ==> final(self).wf(),
    ;

    /// Forgets the orbit: the history is the origin alone again. Parameters,
    /// bounding box and current position stay as they are.
    fn reset(&mut self)
        ensures
            final(self).history() == seq![Point::spec_origin()],
            final(self).wf(),
            final(self).parameters() == old(self).parameters(),
            final(self).position() == old(self).position(),
            final(self).x_range() == old(self).x_range(),
            final(self).y_range() == old(self).y_range(),
    ;

    /// The density field of the history on a `width` by `height` grid, over
    /// the attractor's bounding box. `scale` maps a coordinate within its
    /// range to a column or row.
    fn get_densities<S: Fn(Scalar, Interval, usize) -> usize>(
        &self,
        width: usize,
        height: usize,
        scale: S,
    ) -> (densities: Vec<Density>)
        requires
            width * height <= usize::MAX,
            forall|value: Scalar, range: Interval, cells: usize|
                scale.requires((value, range, cells)),
        ensures
            is_density_field(
                densities@,
                self.history(),
                self.x_range(),
                self.y_range(),
                width,
                height,
                scale,
            ),
            densities@.len() == width * height,
            forall|cell: int|
                0 <= cell < densities@.len() ==> (#[trigger] densities@[cell]).in_unit_range(),
            0 < width && 0 < height && 0 < self.history().len() ==> exists|cell: int|
                0 <= cell < densities@.len() && (#[trigger] densities@[cell]).is_one(),
    ;

    /// The density field of the history with a margin: the bounding box is
    /// widened by `expand`, by the fraction `border` of each range on both
    /// of its sides, before the positions are mapped to pixels.
    fn get_densities_with_border<
        X: Fn(Interval, Scalar) -> Interval,
        S: Fn(Scalar, Interval, usize) -> usize,
    >(&self, width: usize, height: usize, border: Scalar, expand: X, scale: S) -> (densities: Vec<
        Density,
    >)
        requires
            width * height <= usize::MAX,
            expand.requires((self.x_range(), border)),
            expand.requires((self.y_range(), border)),
            forall|value: Scalar, range: Interval, cells: usize|
                scale.requires((value, range, cells)),
        ensures
            is_bordered_density_field(
                densities@,
                self.history(),
                self.x_range(),
                self.y_range(),
                width,
                height,
                border,
                expand,
                scale,
            ),
            densities@.len() == width * height,
            forall|cell: int|
                0 <= cell < densities@.len() ==> (#[trigger] densities@[cell]).in_unit_range(),
            0 < width && 0 < height && 0 < self.history().len() ==> exists|cell: int|
                0 <= cell < densities@.len() && (#[trigger] densities@[cell]).is_one(),
    ;

    /// The orbit file of the attractor: its name, the number of its
    /// parameters and of its dimensions, its parameters and its history, with
    /// each number written by `render`.
    fn to_text<R: Fn(Scalar) -> Vec<u8>>(&self, render: R) -> (text: Vec<u8>)
        requires
            forall|value: Scalar| render.requires((value,)),
        ensures
            is_orbit_text(
                text@,
                Self::NAME.spec_bytes(),
                Self::NUM_PARAMETERS,
                Self::DIMENSIONALITY,
                self.parameters(),
                self.history(),
                render,
            ),
    ;
}

} // verus!
