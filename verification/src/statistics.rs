//! A summary of the fitness of a population.

use vstd::prelude::*;
use crate::binary32::{greater, lesser, rank, spec_greater, spec_is_nan, spec_lesser};
use crate::error::Error;

verus! {

/// The least, the greatest and the mean fitness of a population at one moment.
/// Each is a single-precision number, held by its bit pattern.
#[derive(Clone, Copy, Debug, PartialEq, Eq, Structural)]
pub struct Statistics {
    pub min_fitness: u32,
    pub max_fitness: u32,
    pub avg_fitness: u32,
}

/// The least of the values: the first one, made smaller by each of the
/// others in turn.
pub open spec fn minimum(values: Seq<u32>) -> u32
    decreases values.len(),
{
    if values.len() <= 1 {
        values[0]
    } else {
        spec_lesser(minimum(values.drop_last()), values.last())
    }
}

/// The greatest of the values: the first one, made larger by each of the
/// others in turn.
pub open spec fn maximum(values: Seq<u32>) -> u32
    decreases values.len(),
{
    if values.len() <= 1 {
        values[0]
    } else {
        spec_greater(maximum(values.drop_last()), values.last())
    }
}

impl Statistics {
    /// Summarises the fitness of the members of a population, given in the
    /// order of the members. The mean is not computed here: `mean` is the
    /// arithmetic mean of `fitness` as the caller has worked it out.
    pub fn new(fitness: &Vec<u32>, mean: u32) -> (summary: Result<Statistics, Error>)
        ensures
            fitness@.len() == 0 ==> summary == Err::<Statistics, Error>(Error::EmptyPopulation),
            fitness@.len() > 0 ==> summary == Ok::<Statistics, Error>(
                (Statistics {
                    min_fitness: minimum(fitness@),
                    max_fitness: maximum(fitness@),
                    avg_fitness: mean,
                }),
            ),
    {
        if fitness.len() == 0 {
            return Err(Error::EmptyPopulation);
        }
        let mut min_fitness: u32 = fitness[0];
        let mut max_fitness: u32 = fitness[0];
        let mut seen: usize = 1;
        assert(fitness@.take(1).len() == 1);
        while seen < fitness.len()
            invariant
                1 <= seen <= fitness@.len(),
                min_fitness == minimum(fitness@.take(seen as int)),
                max_fitness == maximum(fitness@.take(seen as int)),
            decreases fitness@.len() - seen,
        {
            assert(fitness@.take(seen + 1).drop_last() == fitness@.take(seen as int));
            min_fitness = lesser(min_fitness, fitness[seen]);
            max_fitness = greater(max_fitness, fitness[seen]);
            seen = seen + 1;
        }
        assert(fitness@.take(seen as int) == fitness@);
        Ok(Statistics { min_fitness, max_fitness, avg_fitness: mean })
    }
}

/// The least fitness is the fitness of a member. Unless no member's fitness
/// is a number, it is a number, and no member's fitness is a smaller one.
pub proof fn lemma_minimum_is_least(values: Seq<u32>)
    requires
        values.len() > 0,
    ensures
        values.contains(minimum(values)),
        forall|i: int|
            0 <= i < values.len() && !spec_is_nan(#[trigger] values[i]) ==> !spec_is_nan(
                minimum(values),
            ) && rank(minimum(values)) <= rank(values[i]),
    decreases values.len(),
{
    if values.len() > 1 {
        let front = values.drop_last();
        lemma_minimum_is_least(front);
        let k = choose|k: int| 0 <= k < front.len() && front[k] == minimum(front);
        assert(values[k] == minimum(front));
        assert(values[values.len() - 1] == values.last());
        assert forall|i: int|
            0 <= i < values.len() && !spec_is_nan(#[trigger] values[i]) implies !spec_is_nan(
            minimum(values),
        ) && rank(minimum(values)) <= rank(values[i]) by {
            if i < front.len() {
                assert(front[i] == values[i]);
            }
        }
    } else {
        assert(values[0] == minimum(values));
    }
}

/// The greatest fitness is the fitness of a member. Unless no member's fitness
/// is a number, it is a number, and no member's fitness is a larger one.
pub proof fn lemma_maximum_is_greatest(values: Seq<u32>)
    requires
        values.len() > 0,
    ensures
        values.contains(maximum(values)),
        forall|i: int|
            0 <= i < values.len() && !spec_is_nan(#[trigger] values[i]) ==> !spec_is_nan(
                maximum(values),
            ) && rank(maximum(values)) >= rank(values[i]),
    decreases values.len(),
{
    if values.len() > 1 {
        let front = values.drop_last();
        lemma_maximum_is_greatest(front);
        let k = choose|k: int| 0 <= k < front.len() && front[k] == maximum(front);
        assert(values[k] == maximum(front));
        assert(values[values.len() - 1] == values.last());
        assert forall|i: int|
            0 <= i < values.len() && !spec_is_nan(#[trigger] values[i]) implies !spec_is_nan(
            maximum(values),
        ) && rank(maximum(values)) >= rank(values[i]) by {
            if i < front.len() {
                assert(front[i] == values[i]);
            }
        }
    } else {
        assert(values[0] == maximum(values));
    }
}

} // verus!
