//! What a member of a population must offer.

use vstd::prelude::*;
use crate::chromosome::Chromosome;

verus! {

/// A candidate solution. It is scored, it shows the chromosome that it was
/// made from, and one like it can be made from any chromosome.
pub trait Individual: Sized {
    /// How good the candidate is: a single-precision number, held by its bit
    /// pattern. Larger is better.
    fn fitness(&self) -> u32;

    /// The chromosome of the candidate.
    fn chromosome(&self) -> &Chromosome;

    /// The candidate with the given chromosome.
    fn create(chromosome: Chromosome) -> Self;
}

/// Makes a candidate of each chromosome, in order: each member of what comes
/// out is what [`Individual::create`] made of the chromosome at its place.
pub fn create_all<I: Individual>(chromosomes: Vec<Chromosome>) -> (population: Vec<I>)
    ensures
        population@.len() == chromosomes@.len(),
        forall|i: int|
            0 <= i < chromosomes@.len() ==> call_ensures(
                I::create,
                (chromosomes@[i],),
                #[trigger] population@[i],
            ),
{
    let mut population: Vec<I> = Vec::new();
    for chromosome in it: chromosomes
        invariant
            population@.len() == it.index(),
            forall|i: int|
                0 <= i < population@.len() ==> call_ensures(
                    I::create,
                    (chromosomes@[i],),
                    #[trigger] population@[i],
                ),
    {
        population.push(I::create(chromosome));
    }
    population
}

} // verus!
