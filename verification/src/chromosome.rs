//! The genome: an ordered sequence of genes.

use vstd::prelude::*;

verus! {

/// An ordered sequence of genes. Each gene is a single-precision number, held
/// by its bit pattern (see [`crate::binary32`]). The place of a gene in the
/// sequence is its meaning, so every operation keeps the order.
#[derive(Debug)]
pub struct Chromosome {
    genes: Vec<u32>,
}

impl View for Chromosome {
    type V = Seq<u32>;

    /// The genes, in order.
    closed spec fn view(&self) -> Seq<u32> {
        self.genes@
    }
}

impl Clone for Chromosome {
    fn clone(&self) -> (copy: Self)
        ensures
            copy@ == self@,
    {
        Chromosome { genes: self.genes.clone() }
    }
}

impl Chromosome {
    /// The number of genes.
    pub fn len(&self) -> (count: usize)
        ensures
            count == self@.len(),
    {
        self.genes.len()
    }

    /// The genes in order, for reading.
    pub fn iter(&self) -> (genes: &[u32])
        ensures
            genes@ == self@,
    {
        self.genes.as_slice()
    }

    /// The genes in order, for writing. What is written to the slice is
    /// written to the chromosome.
    pub fn iter_mut(&mut self) -> (genes: &mut [u32])
        ensures
            genes@ == old(self)@,
            final(genes)@ == final(self)@,
    {
        self.genes.as_mut_slice()
    }

    /// The gene at a position.
    pub fn index(&self, index: usize) -> (gene: &u32)
        requires
            index < self@.len(),
        ensures
            *gene == self@[index as int],
    {
        &self.genes[index]
    }

    /// The chromosome that holds the given genes in the given order.
    pub fn from_iter(genes: Vec<u32>) -> (chromosome: Chromosome)
        ensures
            chromosome@ == genes@,
    {
        Chromosome { genes }
    }

    /// The genes of the chromosome, in its order.
    pub fn into_iter(self) -> (genes: Vec<u32>)
        ensures
            genes@ == self@,
    {
        self.genes
    }
}

/// Taking a chromosome apart and building one from what came out gives a
/// chromosome with the same genes in the same order, and the other way round.
pub proof fn lemma_round_trip(
    chromosome: Chromosome,
    genes: Vec<u32>,
    rebuilt: Chromosome,
    again: Vec<u32>,
)
    requires
        call_ensures(Chromosome::into_iter, (chromosome,), genes),
        call_ensures(Chromosome::from_iter, (genes,), rebuilt),
        call_ensures(Chromosome::into_iter, (rebuilt,), again),
    ensures
        rebuilt@ == chromosome@,
        again@ == genes@,
{
}

} // verus!
