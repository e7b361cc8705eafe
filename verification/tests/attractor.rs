use strange_attractors::{
    Attractor, AttractorError, CliffordAttractor, DeJongAttractor, Interval, Parameters, Point,
    Scalar,
};

fn scalar(number: f64) -> Scalar {
    Scalar::from_bits(number.to_bits())
}

fn number(scalar: Scalar) -> f64 {
    f64::from_bits(scalar.to_bits())
}

fn scalars(values: &[f64]) -> Vec<Scalar> {
    values.iter().map(|v| scalar(*v)).collect()
}

fn extent(parameter: Scalar) -> Interval {
    let reach = number(parameter).abs();
    Interval { min: scalar(-1.0 - reach), max: scalar(1.0 + reach) }
}

fn clifford_formula(p: Parameters, at: Point) -> Point {
    let (a, b, c, d) = (number(p.a), number(p.b), number(p.c), number(p.d));
    let x = (a * number(at.y)).sin() + c * (a * number(at.x)).cos();
    let y = (b * number(at.x)).sin() + d * (b * number(at.y)).cos();
    Point { x: scalar(x), y: scalar(y) }
}

fn dejong_formula(p: Parameters, at: Point) -> Point {
    let (a, b, c, d) = (number(p.a), number(p.b), number(p.c), number(p.d));
    let x = (a * number(at.y)).sin() - (b * number(at.x)).cos();
    let y = (c * number(at.x)).sin() - (d * number(at.y)).cos();
    Point { x: scalar(x), y: scalar(y) }
}

fn origin() -> Point {
    Point { x: scalar(0.0), y: scalar(0.0) }
}

fn clifford() -> CliffordAttractor {
    CliffordAttractor::new(scalars(&[-1.4, 1.6, 1.0, 0.7]), extent).unwrap()
}

#[test]
fn origin_is_zero_zero() {
    assert_eq!(Point::origin(), origin());
    assert_eq!(number(Point::origin().x), 0.0);
    assert_eq!(number(Point::origin().y), 0.0);
}

#[test]
fn scalar_keeps_its_bits() {
    assert_eq!(Scalar::from_bits(0x3FF0_0000_0000_0000).to_bits(), 0x3FF0_0000_0000_0000);
    assert_eq!(number(Scalar::from_bits(0x3FF0_0000_0000_0000)), 1.0);
    assert_eq!(number(scalar(-1.4)), -1.4);
}

#[test]
fn clifford_starts_at_the_origin_with_its_parameters() {
    let it = clifford();
    assert_eq!(number(it.a), -1.4);
    assert_eq!(number(it.b), 1.6);
    assert_eq!(number(it.c), 1.0);
    assert_eq!(number(it.d), 0.7);
    assert_eq!(number(it.x), 0.0);
    assert_eq!(number(it.y), 0.0);
    assert_eq!(it.history, vec![origin()]);
}

#[test]
fn clifford_box_is_one_plus_magnitude_of_c_and_d() {
    let it = clifford();
    assert_eq!(number(it.xmin), -2.0);
    assert_eq!(number(it.xmax), 2.0);
    assert_eq!(number(it.ymin), -1.7);
    assert_eq!(number(it.ymax), 1.7);
    let negative = CliffordAttractor::new(scalars(&[0.1, 0.2, -0.5, -2.25]), extent).unwrap();
    assert_eq!(number(negative.xmin), -1.5);
    assert_eq!(number(negative.xmax), 1.5);
    assert_eq!(number(negative.ymin), -3.25);
    assert_eq!(number(negative.ymax), 3.25);
}

#[test]
fn clifford_refuses_three_parameters() {
    let made = CliffordAttractor::new(scalars(&[-1.4, 1.6, 1.0]), extent);
    assert_eq!(made.err(), Some(AttractorError::InvalidArity { expected: 4, given: 3 }));
}

#[test]
fn clifford_refuses_five_parameters() {
    let made = CliffordAttractor::new(scalars(&[-1.4, 1.6, 1.0, 0.7, 0.0]), extent);
    assert_eq!(made.err(), Some(AttractorError::InvalidArity { expected: 4, given: 5 }));
}

#[test]
fn clifford_refuses_no_parameters() {
    let made = CliffordAttractor::new(Vec::new(), extent);
    assert_eq!(made.err(), Some(AttractorError::InvalidArity { expected: 4, given: 0 }));
}

#[test]
fn dejong_refuses_three_and_five_parameters() {
    let three = DeJongAttractor::new(scalars(&[1.0, 2.0, 3.0]));
    assert_eq!(three.err(), Some(AttractorError::InvalidArity { expected: 4, given: 3 }));
    let five = DeJongAttractor::new(scalars(&[1.0, 2.0, 3.0, 4.0, 5.0]));
    assert_eq!(five.err(), Some(AttractorError::InvalidArity { expected: 4, given: 5 }));
}

#[test]
fn clifford_set_params_of_wrong_length_changes_nothing() {
    let mut it = clifford();
    it.step(5, clifford_formula);
    let history = it.history.clone();
    for given in [3usize, 5] {
        let params = vec![Some(scalar(9.0)); given];
        let done = it.set_params(params, extent);
        assert_eq!(done, Err(AttractorError::InvalidArity { expected: 4, given }));
        assert_eq!(number(it.a), -1.4);
        assert_eq!(number(it.b), 1.6);
        assert_eq!(number(it.c), 1.0);
        assert_eq!(number(it.d), 0.7);
        assert_eq!(number(it.xmin), -2.0);
        assert_eq!(number(it.xmax), 2.0);
        assert_eq!(number(it.ymin), -1.7);
        assert_eq!(number(it.ymax), 1.7);
        assert_eq!(it.history, history);
    }
}

#[test]
fn dejong_set_params_of_wrong_length_changes_nothing() {
    let mut it = DeJongAttractor::new(scalars(&[1.0, 2.0, 3.0, 4.0])).unwrap();
    for given in [3usize, 5] {
        let done = it.set_params(vec![Some(scalar(9.0)); given]);
        assert_eq!(done, Err(AttractorError::InvalidArity { expected: 4, given }));
        assert_eq!(number(it.a), 1.0);
        assert_eq!(number(it.b), 2.0);
        assert_eq!(number(it.c), 3.0);
        assert_eq!(number(it.d), 4.0);
    }
}

#[test]
fn clifford_set_params_overwrites_only_what_is_given() {
    let mut it = clifford();
    let done = it.set_params(vec![Some(scalar(-1.5)), None, None, None], extent);
    assert_eq!(done, Ok(()));
    assert_eq!(number(it.a), -1.5);
    assert_eq!(number(it.b), 1.6);
    assert_eq!(number(it.c), 1.0);
    assert_eq!(number(it.d), 0.7);
    assert_eq!(number(it.xmin), -2.0);
    assert_eq!(number(it.ymax), 1.7);
    let done = it.set_params(vec![None, None, None, None], extent);
    assert_eq!(done, Ok(()));
    assert_eq!(number(it.a), -1.5);
    assert_eq!(number(it.b), 1.6);
}

#[test]
fn clifford_box_follows_c_and_d() {
    let mut it = clifford();
    for (c, d) in [(0.25, -3.5), (-1.75, 0.0), (4.0, 4.0), (-0.0, 1e-3)] {
        it.set_params(vec![None, None, Some(scalar(c)), Some(scalar(d))], extent).unwrap();
        assert_eq!(number(it.c), c);
        assert_eq!(number(it.d), d);
        assert_eq!(number(it.xmin), -1.0 - c.abs());
        assert_eq!(number(it.xmax), 1.0 + c.abs());
        assert_eq!(number(it.ymin), -1.0 - d.abs());
        assert_eq!(number(it.ymax), 1.0 + d.abs());
    }
}

#[test]
fn clifford_box_ignores_a_and_b() {
    let mut it = clifford();
    it.set_params(vec![Some(scalar(3.0)), Some(scalar(-3.0)), None, None], extent).unwrap();
    assert_eq!(number(it.xmin), -2.0);
    assert_eq!(number(it.xmax), 2.0);
    assert_eq!(number(it.ymin), -1.7);
    assert_eq!(number(it.ymax), 1.7);
}

#[test]
fn clifford_box_of_one_axis_stays_when_only_the_other_changes() {
    let mut it = clifford();
    it.set_params(vec![None, None, Some(scalar(0.5)), None], extent).unwrap();
    assert_eq!(number(it.xmax), 1.5);
    assert_eq!(number(it.ymax), 1.7);
    it.set_params(vec![None, None, None, Some(scalar(-2.0))], extent).unwrap();
    assert_eq!(number(it.xmax), 1.5);
    assert_eq!(number(it.ymin), -3.0);
}

#[test]
fn dejong_box_is_minus_two_to_two() {
    let mut it = DeJongAttractor::new(scalars(&[1.0, 2.0, 3.0, 4.0])).unwrap();
    assert_eq!(number(it.xmin), -2.0);
    assert_eq!(number(it.xmax), 2.0);
    assert_eq!(number(it.ymin), -2.0);
    assert_eq!(number(it.ymax), 2.0);
    it.set_params(vec![Some(scalar(7.0)), None, Some(scalar(-9.0)), Some(scalar(0.5))]).unwrap();
    assert_eq!(number(it.a), 7.0);
    assert_eq!(number(it.b), 2.0);
    assert_eq!(number(it.c), -9.0);
    assert_eq!(number(it.d), 0.5);
    assert_eq!(number(it.xmin), -2.0);
    assert_eq!(number(it.xmax), 2.0);
    assert_eq!(number(it.ymin), -2.0);
    assert_eq!(number(it.ymax), 2.0);
}

#[test]
fn step_appends_one_position_fewer_than_asked() {
    let mut it = clifford();
    it.step(11, clifford_formula);
    assert_eq!(it.history.len(), 11);
    it.step(2, clifford_formula);
    assert_eq!(it.history.len(), 12);
    it.step(1000, clifford_formula);
    assert_eq!(it.history.len(), 1011);
}

#[test]
fn step_of_one_or_none_changes_nothing() {
    let mut it = clifford();
    it.step(4, clifford_formula);
    let history = it.history.clone();
    let (x, y) = (it.x, it.y);
    it.step(1, clifford_formula);
    assert_eq!(it.history, history);
    assert_eq!((it.x, it.y), (x, y));
    it.step(0, clifford_formula);
    assert_eq!(it.history, history);
    assert_eq!((it.x, it.y), (x, y));
}

#[test]
fn clifford_step_iterates_the_recurrence() {
    let mut it = clifford();
    it.step(4, clifford_formula);
    let (a, b, c, d) = (-1.4f64, 1.6f64, 1.0f64, 0.7f64);
    let (mut x, mut y) = (0.0f64, 0.0f64);
    assert_eq!(it.history[0], origin());
    for i in 1..4 {
        let next_x = (a * y).sin() + c * (a * x).cos();
        let next_y = (b * x).sin() + d * (b * y).cos();
        x = next_x;
        y = next_y;
        assert_eq!(number(it.history[i].x), x);
        assert_eq!(number(it.history[i].y), y);
    }
    assert_eq!(number(it.x), x);
    assert_eq!(number(it.y), y);
    assert_eq!(number(it.history[1].x), 1.0);
    assert_eq!(number(it.history[1].y), 0.7);
    assert_eq!(number(it.history[2].x), (-1.4f64 * 0.7).sin() + (-1.4f64).cos());
    assert_eq!(number(it.history[2].y), 1.6f64.sin() + 0.7 * (1.6f64 * 0.7).cos());
}

#[test]
fn dejong_step_iterates_the_recurrence() {
    let mut it = DeJongAttractor::new(scalars(&[1.4, -2.3, 2.4, -2.1])).unwrap();
    it.step(6, dejong_formula);
    assert_eq!(it.history.len(), 6);
    let (a, b, c, d) = (1.4f64, -2.3f64, 2.4f64, -2.1f64);
    let (mut x, mut y) = (0.0f64, 0.0f64);
    for i in 1..6 {
        let next_x = (a * y).sin() - (b * x).cos();
        let next_y = (c * x).sin() - (d * y).cos();
        x = next_x;
        y = next_y;
        assert_eq!(number(it.history[i].x), x);
        assert_eq!(number(it.history[i].y), y);
    }
    assert_eq!(number(it.x), x);
    assert_eq!(number(it.y), y);
    assert_eq!(number(it.history[1].x), -1.0);
    assert_eq!(number(it.history[1].y), -1.0);
}

#[test]
fn step_continues_from_the_current_position() {
    let mut whole = clifford();
    whole.step(9, clifford_formula);
    let mut parts = clifford();
    parts.step(4, clifford_formula);
    parts.step(1, clifford_formula);
    parts.step(6, clifford_formula);
    assert_eq!(parts.history, whole.history);
}

#[test]
fn orbit_stays_in_the_bounding_box() {
    let mut it = clifford();
    it.step(5000, clifford_formula);
    for position in &it.history {
        assert!(number(it.xmin) <= number(position.x) && number(position.x) <= number(it.xmax));
        assert!(number(it.ymin) <= number(position.y) && number(position.y) <= number(it.ymax));
    }
}

#[test]
fn reset_leaves_the_origin_alone() {
    let mut it = clifford();
    it.reset();
    assert_eq!(it.history, vec![origin()]);
    it.step(50, clifford_formula);
    it.step(1, clifford_formula);
    it.step(700, clifford_formula);
    assert_eq!(it.history.len(), 749);
    it.reset();
    assert_eq!(it.history, vec![origin()]);
    it.reset();
    assert_eq!(it.history, vec![origin()]);
}

#[test]
fn reset_keeps_parameters_box_and_position() {
    let mut it = clifford();
    it.step(20, clifford_formula);
    let (x, y) = (it.x, it.y);
    it.reset();
    assert_eq!(number(it.a), -1.4);
    assert_eq!(number(it.b), 1.6);
    assert_eq!(number(it.c), 1.0);
    assert_eq!(number(it.d), 0.7);
    assert_eq!(number(it.xmin), -2.0);
    assert_eq!(number(it.ymax), 1.7);
    assert_eq!((it.x, it.y), (x, y));
}

#[test]
fn dejong_reset_leaves_the_origin_alone() {
    let mut it = DeJongAttractor::new(scalars(&[1.4, -2.3, 2.4, -2.1])).unwrap();
    it.step(300, dejong_formula);
    assert_eq!(it.history.len(), 300);
    it.reset();
    assert_eq!(it.history, vec![origin()]);
    assert_eq!(number(it.a), 1.4);
}

#[test]
fn set_params_keeps_history_and_position() {
    let mut it = clifford();
    it.step(10, clifford_formula);
    let history = it.history.clone();
    let (x, y) = (it.x, it.y);
    it.set_params(vec![Some(scalar(1.0)), Some(scalar(2.0)), Some(scalar(3.0)), Some(scalar(4.0))], extent)
        .unwrap();
    assert_eq!(it.history, history);
    assert_eq!((it.x, it.y), (x, y));
}

#[test]
fn names_arity_and_dimensions() {
    assert_eq!(CliffordAttractor::NAME, "clifford");
    assert_eq!(CliffordAttractor::NUM_PARAMETERS, 4);
    assert_eq!(CliffordAttractor::DIMENSIONALITY, 2);
    assert_eq!(DeJongAttractor::NAME, "dejong");
    assert_eq!(DeJongAttractor::NUM_PARAMETERS, 4);
    assert_eq!(DeJongAttractor::DIMENSIONALITY, 2);
}
