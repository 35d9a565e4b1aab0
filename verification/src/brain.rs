//! The brain of a creature: a small feed-forward network whose weights are
//! the genes of a chromosome.
//!
//! The network has three layers. The first has one neuron for each cell of
//! the creature's eye, the second twice as many, the third two. Every neuron
//! of the second and of the third layer has one weight for each neuron of the
//! layer before it, and a bias. The weights are kept in one sequence: layer by
//! layer, neuron by neuron, and for each neuron its bias and its weights. This
//! is the order of the genes of the chromosome that the brain is made from.

use vstd::prelude::*;
use crate::chromosome::Chromosome;
use crate::error::Error;

verus! {

/// The size of one layer of a network.
#[derive(Clone, Copy, Debug, PartialEq, Eq, Structural)]
pub struct LayerTopology {
    pub neurons: usize,
}

/// A network of the three layers that belong to an eye, with its weights.
#[derive(Debug)]
pub struct Brain {
    cells: usize,
    weights: Vec<u32>,
}

/// The number of weights of the network that belongs to an eye of `cells`
/// cells: for each neuron of the second and of the third layer, one for each
/// neuron of the layer before it and one more.
pub open spec fn weight_count(cells: int) -> int {
    (cells + 1) * (2 * cells) + (2 * cells + 1) * 2
}

impl Brain {
    /// The number of cells of the eye that the brain belongs to.
    pub closed spec fn cells(&self) -> usize {
        self.cells
    }

    /// The weights, in the order of the genes.
    pub closed spec fn weights(&self) -> Seq<u32> {
        self.weights@
    }

    /// A brain has as many weights as its layers call for.
    #[verifier::type_invariant]
    closed spec fn well_formed(&self) -> bool {
        self.weights@.len() == weight_count(self.cells as int)
    }

    /// The layers of the network that belongs to an eye of `cells` cells.
    pub fn topology(cells: usize) -> (layers: [LayerTopology; 3])
        requires
            2 * cells <= usize::MAX,
        ensures
            layers[0].neurons == cells,
            layers[1].neurons == 2 * cells,
            layers[2].neurons == 2,
    {
        [
            LayerTopology { neurons: cells },
            LayerTopology { neurons: 2 * cells },
            LayerTopology { neurons: 2 },
        ]
    }

    /// The brain whose weights are the genes of the chromosome, for an eye of
    /// `cells` cells. A chromosome with another number of genes than the
    /// network has weights is refused.
    pub fn from_chromosome(chromosome: Chromosome, cells: usize) -> (brain: Result<Brain, Error>)
        ensures
            chromosome@.len() == weight_count(cells as int) ==> (brain matches Ok(b) && b.cells()
                == cells && b.weights() == chromosome@),
            chromosome@.len() != weight_count(cells as int) ==> brain matches Err(
                Error::LengthMismatch,
            ),
    {
        let genes = chromosome.len();
        // One short of a third of the genes, the cells already call for more weights.
        if cells > genes / 3 {
            assert(weight_count(cells as int) > genes) by (nonlinear_arith)
                requires
                    cells > genes / 3,
                    cells >= 0,
                    genes >= 0,
            ;
            return Err(Error::LengthMismatch);
        }
        let wide: u128 = cells as u128;
        assert((wide + 1) * (2 * wide) <= 0x8000_0000_0000_0000 * 0x1_0000_0000_0000_0000)
            by (nonlinear_arith)
            requires
                0 <= wide < 0x8000_0000_0000_0000,
        ;
        let needed: u128 = (wide + 1) * (2 * wide) + (2 * wide + 1) * 2;
        if needed == genes as u128 {
            Ok(Brain { cells, weights: chromosome.into_iter() })
        } else {
            Err(Error::LengthMismatch)
        }
    }

    /// The chromosome whose genes are the weights of the brain. It has as
    /// many genes as the network of the brain's eye has weights.
    pub fn as_chromosome(&self) -> (chromosome: Chromosome)
        ensures
            chromosome@ == self.weights(),
            chromosome@.len() == weight_count(self.cells() as int),
    {
        proof {
            use_type_invariant(self);
        }
        Chromosome::from_iter(self.weights.clone())
    }
}

/// The chromosome of the brain that was made from a chromosome has the genes
/// of that chromosome, in their order; and the brain made from the chromosome
/// of a brain, for the same eye, has the weights of that brain.
pub proof fn lemma_brain_round_trip(
    chromosome: Chromosome,
    cells: usize,
    brain: Brain,
    back: Chromosome,
    again: Result<Brain, Error>,
)
    requires
        call_ensures(Brain::from_chromosome, (chromosome, cells), Ok::<Brain, Error>(brain)),
        call_ensures(Brain::as_chromosome, (&brain,), back),
        call_ensures(Brain::from_chromosome, (back, cells), again),
    ensures
        back@ == chromosome@,
        again matches Ok(b) && b.weights() == brain.weights() && b.cells() == brain.cells(),
{
}

} // verus!
