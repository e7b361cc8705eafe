//! The Clifford attractor.
use crate::attractor::{updated, Attractor, AttractorError};
use crate::density::{density_field, density_field_with_border, Density};
use crate::orbit::{extend_orbit, lemma_orbit_extension_of_same_length};
use crate::orbit_text::orbit_text;
use crate::scalar::{Interval, Parameters, Point, Scalar};
use vstd::prelude::*;

verus! {

/// A Clifford attractor, after Clifford A. Pickover:
///
/// ```text
/// x' = sin(a * y) + c * cos(a * x)
/// y' = sin(b * x) + d * cos(b * y)
/// ```
///
/// Its orbit stays within `1 + |c|` of zero in `x` and within `1 + |d|` in
/// `y`, so its bounding box follows `c` and `d`, and only them.
#[derive(Debug)]
pub struct CliffordAttractor {
    /// Parameter `a`, used in the new `x`.
    pub a: Scalar,
    /// Parameter `b`, used in the new `y`.
    pub b: Scalar,
    /// Parameter `c`, which sets the range of `x`.
    pub c: Scalar,
    /// Parameter `d`, which sets the range of `y`.
    pub d: Scalar,
    /// The current `x`.
    pub x: Scalar,
    /// The current `y`.
    pub y: Scalar,
    /// The least `x`: `-1 - |c|`.
    pub xmin: Scalar,
    /// The greatest `x`: `1 + |c|`.
    pub xmax: Scalar,
    /// The least `y`: `-1 - |d|`.
    pub ymin: Scalar,
    /// The greatest `y`: `1 + |d|`.
    pub ymax: Scalar,
    /// Every position visited since the last reset.
    pub history: Vec<Point>,
}

impl Attractor for CliffordAttractor {
    const NAME: &'static str = "clifford";

    const DIMENSIONALITY: u8 = 2;

    const NUM_PARAMETERS: u8 = 4;

    open spec fn parameters(&self) -> Parameters {
        Parameters { a: self.a, b: self.b, c: self.c, d: self.d }
    }

    open spec fn position(&self) -> Point {
        Point { x: self.x, y: self.y }
    }

    open spec fn x_range(&self) -> Interval {
        Interval { min: self.xmin, max: self.xmax }
    }

    open spec fn y_range(&self) -> Interval {
        Interval { min: self.ymin, max: self.ymax }
    }

    open spec fn history(&self) -> Seq<Point> {
        self.history@
    }

    fn step<F: Fn(Parameters, Point) -> Point>(&mut self, num_steps: usize, formula: F) {
        let parameters = Parameters { a: self.a, b: self.b, c: self.c, d: self.d };
        let start = Point { x: self.x, y: self.y };
        let end = extend_orbit(&mut self.history, start, parameters, num_steps, formula);
        self.x = end.x;
        self.y = end.y;
        proof {
            let before = old(self).history@;
            if num_steps <= 1 {
                lemma_orbit_extension_of_same_length(
                    before,
                    start,
                    self.history@,
                    end,
                    parameters,
                    formula,
                );
            }
            if before.len() >= 1 {
                assert(self.history@[0] == before[0]);
            }
        }
    }

    fn reset(&mut self) {
        self.history = vec![Point::origin()];
        assert(self.history@ =~= seq![Point::spec_origin()]);
    }

    fn get_densities<S: Fn(Scalar, Interval, usize) -> usize>(
        &self,
        width: usize,
        height: usize,
        scale: S,
    ) -> (densities: Vec<Density>) {
        let x_range = Interval { min: self.xmin, max: self.xmax };
        let y_range = Interval { min: self.ymin, max: self.ymax };
        density_field(&self.history, x_range, y_range, width, height, scale)
    }

    fn get_densities_with_border<
        X: Fn(Interval, Scalar) -> Interval,
        S: Fn(Scalar, Interval, usize) -> usize,
    >(&self, width: usize, height: usize, border: Scalar, expand: X, scale: S) -> (densities: Vec<
        Density,
    >) {
        let x_range = Interval { min: self.xmin, max: self.xmax };
        let y_range = Interval { min: self.ymin, max: self.ymax };
        density_field_with_border(
            &self.history,
            x_range,
            y_range,
            width,
            height,
            border,
            expand,
            scale,
        )
    }

    fn to_text<R: Fn(Scalar) -> Vec<u8>>(&self, render: R) -> (text: Vec<u8>) {
        let parameters = Parameters { a: self.a, b: self.b, c: self.c, d: self.d };
        orbit_text(
            Self::NAME,
            Self::NUM_PARAMETERS,
            Self::DIMENSIONALITY,
            parameters,
            &self.history,
            render,
        )
    }
}

impl CliffordAttractor {
    /// A Clifford attractor with the parameters `a`, `b`, `c`, `d` that
    /// `params` holds in this order, standing at the origin, with the origin
    /// as its whole history. `extent` derives the range of a coordinate from
    /// the parameter that sets it: `[-1 - |p|, 1 + |p|]`; the range of `x` is
    /// taken from `c`, that of `y` from `d`.
    ///
    /// Any number of parameters but four is refused.
    pub fn new<E: Fn(Scalar) -> Interval>(params: Vec<Scalar>, extent: E) -> (made: Result<
        CliffordAttractor,
        AttractorError,
    >)
        requires
            params@.len() == 4 ==> extent.requires((params@[2],)) && extent.requires((params@[3],)),
        ensures
            params@.len() != 4 ==> made == Err::<CliffordAttractor, AttractorError>(
                AttractorError::InvalidArity { expected: 4, given: params@.len() as usize },
            ),
            params@.len() == 4 ==> made is Ok && ({
                let it = made->Ok_0;
                &&& it.parameters() == Parameters {
                    a: params@[0],
                    b: params@[1],
                    c: params@[2],
                    d: params@[3],
                }
                &&& it.position() == Point::spec_origin()
                &&& it.history@ == seq![Point::spec_origin()]
                &&& it.wf()
                &&& extent.ensures((params@[2],), it.x_range())
                &&& extent.ensures((params@[3],), it.y_range())
            }),
    {
        if params.len() != Self::NUM_PARAMETERS as usize {
            return Err(
                AttractorError::InvalidArity {
                    expected: Self::NUM_PARAMETERS as usize,
                    given: params.len(),
                },
            );
        }
        let x_range = extent(params[2]);
        let y_range = extent(params[3]);
        let origin = Point::origin();
        let history = vec![origin];
        assert(history@ =~= seq![Point::spec_origin()]);
        Ok(
            CliffordAttractor {
                a: params[0],
                b: params[1],
                c: params[2],
                d: params[3],
                x: origin.x,
                y: origin.y,
                xmin: x_range.min,
                xmax: x_range.max,
                ymin: y_range.min,
                ymax: y_range.max,
                history,
            },
        )
    }

    /// Overwrites each parameter for which `params` holds a value, in the
    /// order `a`, `b`, `c`, `d`, and leaves the others as they are. Where `c`
    /// is overwritten the range of `x` is derived anew by `extent`, and where
    /// `d` is, the range of `y`; a range whose parameter stays is not
    /// touched. Position and history stay.
    ///
    /// Any number of entries but four is refused, and nothing changes.
    pub fn set_params<E: Fn(Scalar) -> Interval>(
        &mut self,
        params: Vec<Option<Scalar>>,
        extent: E,
    ) -> (done: Result<(), AttractorError>)
        requires
            params@.len() == 4 ==> {
                &&& params@[2] matches Some(c) ==> extent.requires((c,))
                &&& params@[3] matches Some(d) ==> extent.requires((d,))
            },
        ensures
            params@.len() != 4 ==> {
                &&& done == Err::<(), AttractorError>(
                    AttractorError::InvalidArity { expected: 4, given: params@.len() as usize },
                )
                &&& *final(self) == *old(self)
            },
            params@.len() == 4 ==> {
                &&& done is Ok
                &&& final(self).a == updated(old(self).a, params@[0])
                &&& final(self).b == updated(old(self).b, params@[1])
                &&& final(self).c == updated(old(self).c, params@[2])
                &&& final(self).d == updated(old(self).d, params@[3])
                &&& match params@[2] {
                    Some(c) => extent.ensures((c,), final(self).x_range()),
                    None => final(self).x_range() == old(self).x_range(),
                }
                &&& match params@[3] {
                    Some(d) => extent.ensures((d,), final(self).y_range()),
                    None => final(self).y_range() == old(self).y_range(),
                }
                &&& final(self).position() == old(self).position()
                &&& final(self).history == old(self).history
            },
    {
        if params.len() != Self::NUM_PARAMETERS as usize {
            return Err(
                AttractorError::InvalidArity {
                    expected: Self::NUM_PARAMETERS as usize,
                    given: params.len(),
                },
            );
        }
        if let Some(a) = params[0] {
            self.a = a;
        }
        if let Some(b) = params[1] {
            self.b = b;
        }
        if let Some(c) = params[2] {
            self.c = c;
            let x_range = extent(c);
            self.xmin = x_range.min;
            self.xmax = x_range.max;
        }
        if let Some(d) = params[3] {
            self.d = d;
            let y_range = extent(d);
            self.ymin = y_range.min;
            self.ymax = y_range.max;
        }
        Ok(())
    }
}

} // verus!
