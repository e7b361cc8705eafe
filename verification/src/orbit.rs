//! Orbits: the positions that a recurrence visits, one after another.
use crate::scalar::{Parameters, Point};
use vstd::prelude::*;

verus! {

/// How many positions a call for `num_steps` steps adds: one fewer than
/// asked for, and none where none or one is asked for.
pub open spec fn iterations(num_steps: usize) -> nat {
    if num_steps == 0 {
        0
    } else {
        (num_steps - 1) as nat
    }
}

/// `after` continues `before` by iterating `formula` from `start`: it keeps
/// every position of `before`, each further position is what `formula`
/// returned for the position just before it (for `start`, in the case of the
/// first), and `end` is where the iteration stands.
pub open spec fn is_orbit_extension<F: Fn(Parameters, Point) -> Point>(
    before: Seq<Point>,
    start: Point,
    after: Seq<Point>,
    end: Point,
    parameters: Parameters,
    formula: F,
) -> bool {
    &&& before.len() <= after.len()
    &&& forall|i: int| 0 <= i < before.len() ==> after[i] == #[trigger] before[i]
    &&& forall|i: int|
        before.len() <= i < after.len() ==> formula.ensures(
            (
                parameters,
                if i == before.len() {
                    start
                } else {
                    after[i - 1]
                },
            ),
            #[trigger] after[i],
        )
    &&& end == if after.len() == before.len() {
        start
    } else {
        after.last()
    }
}

/// An orbit that was not lengthened was not changed.
pub proof fn lemma_orbit_extension_of_same_length<F: Fn(Parameters, Point) -> Point>(
    before: Seq<Point>,
    start: Point,
    after: Seq<Point>,
    end: Point,
    parameters: Parameters,
    formula: F,
)
    requires
        is_orbit_extension(before, start, after, end, parameters, formula),
        after.len() == before.len(),
    ensures
        after == before,
        end == start,
{
    assert(after =~= before);
}

/// Stepping in parts is stepping at once: an orbit that continues a
/// continuation of `first`, from where that one ended, continues `first`.
pub proof fn lemma_orbit_extensions_compose<F: Fn(Parameters, Point) -> Point>(
    first: Seq<Point>,
    start: Point,
    second: Seq<Point>,
    middle: Point,
    third: Seq<Point>,
    end: Point,
    parameters: Parameters,
    formula: F,
)
    requires
        is_orbit_extension(first, start, second, middle, parameters, formula),
        is_orbit_extension(second, middle, third, end, parameters, formula),
    ensures
        is_orbit_extension(first, start, third, end, parameters, formula),
{
    assert forall|i: int| 0 <= i < first.len() implies third[i] == #[trigger] first[i] by {
        assert(second[i] == first[i]);
        assert(third[i] == second[i]);
    }
    assert forall|i: int| first.len() <= i < third.len() implies formula.ensures(
        (
            parameters,
            if i == first.len() {
                start
            } else {
                third[i - 1]
            },
        ),
        #[trigger] third[i],
    ) by {
        if i < second.len() {
            assert(third[i] == second[i]);
            if i > first.len() {
                assert(third[i - 1] == second[i - 1]);
            }
        } else if i == second.len() && second.len() > first.len() {
            assert(third[i - 1] == second[i - 1]);
        }
    }
    if third.len() == second.len() && second.len() > first.len() {
        assert(third[third.len() - 1] == second[second.len() - 1]);
    }
}

/// Iterates `formula` from `start`, `num_steps - 1` times, and appends each
/// new position to `history`. Returns the last position reached, which is
/// `start` where nothing was appended.
pub fn extend_orbit<F: Fn(Parameters, Point) -> Point>(
    history: &mut Vec<Point>,
    start: Point,
    parameters: Parameters,
    num_steps: usize,
    formula: F,
) -> (end: Point)
    requires
        forall|at: Point| formula.requires((parameters, at)),
    ensures
        final(history)@.len() == old(history)@.len() + iterations(num_steps),
        is_orbit_extension(old(history)@, start, final(history)@, end, parameters, formula),
{
    let mut at = start;
    let mut step: usize = 1;
    while step < num_steps
        invariant
            forall|at: Point| formula.requires((parameters, at)),
            1 <= step,
            if num_steps == 0 {
                step == 1
            } else {
                step <= num_steps
            },
            history@.len() == old(history)@.len() + step - 1,
            is_orbit_extension(old(history)@, start, history@, at, parameters, formula),
        decreases num_steps - step,
    {
        let ghost earlier = history@;
        let next = formula(parameters, at);
        history.push(next);
        proof {
            assert forall|i: int| 0 <= i < old(history)@.len() implies history@[i] == #[trigger] old(
                history,
            )@[i] by {
                assert(history@[i] == earlier[i]);
            }
            assert forall|i: int| old(history)@.len() <= i < history@.len() implies formula.ensures(
                (
                    parameters,
                    if i == old(history)@.len() {
                        start
                    } else {
                        history@[i - 1]
                    },
                ),
                #[trigger] history@[i],
            ) by {
                if i < earlier.len() {
                    assert(history@[i] == earlier[i]);
                    if i > old(history)@.len() {
                        assert(history@[i - 1] == earlier[i - 1]);
                    }
                }
            }
        }
        at = next;
        step += 1;
    }
    at
}

} // verus!
