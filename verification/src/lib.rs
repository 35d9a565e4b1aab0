//! A generational genetic algorithm over chromosomes of single-precision
//! genes, and the encoding of a small neural network as such a chromosome.
//!
//! The crate decides what happens and in which order. It never draws at
//! random and never does arithmetic on a gene: whenever it needs either, it
//! asks (see [`protocol`]), and the caller answers.
//!
//! One generation goes like this. [`GeneticAlgorithm::evolve`] begins it and
//! hands out an [`Evolution`]. As long as [`Pass::request`] hands out a
//! request, the caller answers it with [`Pass::reply`]. After that
//! [`Pass::finish`] hands out the chromosomes of the next population, which
//! [`create_all`] turns into its members, and the statistics of the
//! population that they were bred from.
//!
//! Every number is a single-precision number that is held by its bit pattern
//! (see [`binary32`]): a gene, a fitness, a probability, a coefficient.

pub mod algorithm;
pub mod binary32;
pub mod brain;
pub mod chromosome;
pub mod classic;
pub mod crossover;
pub mod error;
pub mod individual;
pub mod mutation;
pub mod protocol;
pub mod selection;
pub mod statistics;

pub use crate::algorithm::{Evolution, GeneticAlgorithm};
pub use crate::brain::{Brain, LayerTopology};
pub use crate::chromosome::Chromosome;
pub use crate::classic::Classic;
pub use crate::crossover::{CrossoverMethod, UniformCrossover};
pub use crate::error::Error;
pub use crate::individual::{create_all, Individual};
pub use crate::mutation::{GaussianMutation, MutationMethod};
pub use crate::protocol::{Pass, Reply, Request};
pub use crate::selection::{RouletteWheelSelection, SelectionMethod};
pub use crate::statistics::Statistics;
