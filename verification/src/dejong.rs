//! The De Jong attractor.
use crate::attractor::{updated, Attractor, AttractorError};
use crate::density::{density_field, density_field_with_border, Density};
use crate::orbit::{extend_orbit, lemma_orbit_extension_of_same_length};
use crate::orbit_text::orbit_text;
use crate::scalar::{Interval, Parameters, Point, Scalar, NEGATIVE_TWO_BITS, TWO_BITS};
use vstd::prelude::*;

verus! {

/// The range `[-2, 2]`, which bounds both coordinates of every De Jong
/// orbit: each is a sine minus a cosine.
pub open spec fn dejong_range() -> Interval {
    Interval { min: Scalar { bits: NEGATIVE_TWO_BITS }, max: Scalar { bits: TWO_BITS } }
}

/// A De Jong attractor, after Peter de Jong:
///
/// ```text
/// x' = sin(a * y) - cos(b * x)
/// y' = sin(c * x) - cos(d * y)
/// ```
///
/// Like the Clifford attractor, without the scaling constants on the second
/// term. Its bounding box is the same for all parameters.
#[derive(Debug)]
pub struct DeJongAttractor {
    /// Parameter `a`.
    pub a: Scalar,
    /// Parameter `b`.
    pub b: Scalar,
    /// Parameter `c`.
    pub c: Scalar,
    /// Parameter `d`.
    pub d: Scalar,
    /// The current `x`.
    pub x: Scalar,
    /// The current `y`.
    pub y: Scalar,
    /// The least `x`, always `-2`.
    pub xmin: Scalar,
    /// The greatest `x`, always `2`.
    pub xmax: Scalar,
    /// The least `y`, always `-2`.
    pub ymin: Scalar,
    /// The greatest `y`, always `2`.
    pub ymax: Scalar,
    /// Every position visited since the last reset.
    pub history: Vec<Point>,
}

impl Attractor for DeJongAttractor {
    const NAME: &'static str = "dejong";

    const DIMENSIONALITY: u8 = 2;

    const NUM_PARAMETERS: u8 = 4;

    open spec fn parameters(&self) -> Parameters {
        Parameters { a: self.a, b: self.b, c: self.c, d: self.d }
    }

    open spec fn position(&self) -> Point {
        Point { x: self.x, y: self.y }
    }

    open spec fn x_range(&self) -> Interval {
        Interval { min: self.xmin, max: self.xmax }
    }

    open spec fn y_range(&self) -> Interval {
        Interval { min: self.ymin, max: self.ymax }
    }

    open spec fn history(&self) -> Seq<Point> {
        self.history@
    }

    fn step<F: Fn(Parameters, Point) -> Point>(&mut self, num_steps: usize, formula: F) {
        let parameters = Parameters { a: self.a, b: self.b, c: self.c, d: self.d };
        let start = Point { x: self.x, y: self.y };
        let end = extend_orbit(&mut self.history, start, parameters, num_steps, formula);
        self.x = end.x;
        self.y = end.y;
        proof {
            let before = old(self).history@;
            if num_steps <= 1 {
                lemma_orbit_extension_of_same_length(
                    before,
                    start,
                    self.history@,
                    end,
                    parameters,
                    formula,
                );
            }
            if before.len() >= 1 {
                assert(self.history@[0] == before[0]);
            }
        }
    }

    fn reset(&mut self) {
        self.history = vec![Point::origin()];
        assert(self.history@ =~= seq![Point::spec_origin()]);
    }

    fn get_densities<S: Fn(Scalar, Interval, usize) -> usize>(
        &self,
        width: usize,
        height: usize,
        scale: S,
    ) -> (densities: Vec<Density>) {
        let x_range = Interval { min: self.xmin, max: self.xmax };
        let y_range = Interval { min: self.ymin, max: self.ymax };
        density_field(&self.history, x_range, y_range, width, height, scale)
    }

    fn get_densities_with_border<
        X: Fn(Interval, Scalar) -> Interval,
        S: Fn(Scalar, Interval, usize) -> usize,
    >(&self, width: usize, height: usize, border: Scalar, expand: X, scale: S) -> (densities: Vec<
        Density,
    >) {
        let x_range = Interval { min: self.xmin, max: self.xmax };
        let y_range = Interval { min: self.ymin, max: self.ymax };
        density_field_with_border(
            &self.history,
            x_range,
            y_range,
            width,
            height,
            border,
            expand,
            scale,
        )
    }

    fn to_text<R: Fn(Scalar) -> Vec<u8>>(&self, render: R) -> (text: Vec<u8>) {
        let parameters = Parameters { a: self.a, b: self.b, c: self.c, d: self.d };
        orbit_text(
            Self::NAME,
            Self::NUM_PARAMETERS,
            Self::DIMENSIONALITY,
            parameters,
            &self.history,
            render,
        )
    }
}

impl DeJongAttractor {
    /// A De Jong attractor with the parameters `a`, `b`, `c`, `d` that
    /// `params` holds in this order, standing at the origin, with the origin
    /// as its whole history and `[-2, 2]` as the range of both coordinates.
    ///
    /// Any number of parameters but four is refused.
    pub fn new(params: Vec<Scalar>) -> (made: Result<DeJongAttractor, AttractorError>)
        ensures
            params@.len() != 4 ==> made == Err::<DeJongAttractor, AttractorError>(
                AttractorError::InvalidArity { expected: 4, given: params@.len() as usize },
            ),
            params@.len() == 4 ==> made is Ok && ({
                let it = made->Ok_0;
                &&& it.parameters() == Parameters {
                    a: params@[0],
                    b: params@[1],
                    c: params@[2],
                    d: params@[3],
                }
                &&& it.position() == Point::spec_origin()
                &&& it.history@ == seq![Point::spec_origin()]
                &&& it.wf()
                &&& it.x_range() == dejong_range()
                &&& it.y_range() == dejong_range()
            }),
    {
        if params.len() != Self::NUM_PARAMETERS as usize {
            return Err(
                AttractorError::InvalidArity {
                    expected: Self::NUM_PARAMETERS as usize,
                    given: params.len(),
                },
            );
        }
        let origin = Point::origin();
        let history = vec![origin];
        assert(history@ =~= seq![Point::spec_origin()]);
        Ok(
            DeJongAttractor {
                a: params[0],
                b: params[1],
                c: params[2],
                d: params[3],
                x: origin.x,
                y: origin.y,
                xmin: Scalar { bits: NEGATIVE_TWO_BITS },
                xmax: Scalar { bits: TWO_BITS },
                ymin: Scalar { bits: NEGATIVE_TWO_BITS },
                ymax: Scalar { bits: TWO_BITS },
                history,
            },
        )
    }

    /// Overwrites each parameter for which `params` holds a value, in the
    /// order `a`, `b`, `c`, `d`, and leaves the others as they are. The
    /// bounding box depends on no parameter and stays, as do position and
    /// history.
    ///
    /// Any number of entries but four is refused, and nothing changes.
    pub fn set_params(&mut self, params: Vec<Option<Scalar>>) -> (done: Result<(), AttractorError>)
        ensures
            params@.len() != 4 ==> {
                &&& done == Err::<(), AttractorError>(
                    AttractorError::InvalidArity { expected: 4, given: params@.len() as usize },
                )
                &&& *final(self) == *old(self)
            },
            params@.len() == 4 ==> {
                &&& done is Ok
                &&& final(self).a == updated(old(self).a, params@[0])
                &&& final(self).b == updated(old(self).b, params@[1])
                &&& final(self).c == updated(old(self).c, params@[2])
                &&& final(self).d == updated(old(self).d, params@[3])
                &&& final(self).x_range() == old(self).x_range()
                &&& final(self).y_range() == old(self).y_range()
                &&& final(self).position() == old(self).position()
                &&& final(self).history == old(self).history
            },
    {
        if params.len() != Self::NUM_PARAMETERS as usize {
            return Err(
                AttractorError::InvalidArity {
                    expected: Self::NUM_PARAMETERS as usize,
                    given: params.len(),
                },
            );
        }
        if let Some(a) = params[0] {
            self.a = a;
        }
        if let Some(b) = params[1] {
            self.b = b;
        }
        if let Some(c) = params[2] {
            self.c = c;
        }
        if let Some(d) = params[3] {
            self.d = d;
        }
        Ok(())
    }
}

} // verus!
