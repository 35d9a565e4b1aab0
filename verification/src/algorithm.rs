//! The generational step: from a scored population to the chromosomes of the
//! next one.

use vstd::prelude::*;
use crate::chromosome::Chromosome;
use crate::crossover::CrossoverMethod;
use crate::error::Error;
use crate::individual::Individual;
use crate::mutation::MutationMethod;
use crate::protocol::{admits, admits_all, after_all, Ask, Pass, Reply, Request};
use crate::selection::SelectionMethod;
use crate::statistics::{maximum, minimum, Statistics};

verus! {

/// A genetic algorithm: one way to choose parents, one to cross them and one
/// to change the child.
pub struct GeneticAlgorithm<S, C, M> {
    selection_method: S,
    crossover_method: C,
    mutation_method: M,
}

/// What a generation is busy with.
enum Phase<S: SelectionMethod, C: CrossoverMethod, M: MutationMethod> {
    First(S::Run),
    Second(usize, S::Run),
    Crossing(C::Run),
    Mutating(M::Run),
    Averaging,
    Bred(u32),
    Failed(Error),
}

/// What a generation is busy with, as a mathematical value.
pub enum PhaseState<S: SelectionMethod, C: CrossoverMethod, M: MutationMethod> {
    /// The first parent of the next child is being chosen.
    First(<S::Run as Pass>::Model),
    /// The first parent has been chosen, by its index; the second is being
    /// chosen.
    Second(usize, <S::Run as Pass>::Model),
    /// The two parents are being crossed.
    Crossing(<C::Run as Pass>::Model),
    /// The child is being changed.
    Mutating(<M::Run as Pass>::Model),
    /// All children have been made; the mean fitness of the parents is asked
    /// for.
    Averaging,
    /// The generation is complete. The number is the mean fitness of the
    /// parents.
    Bred(u32),
    /// The generation has failed.
    Failed(Error),
}

/// One generation in the making. It is a [`Pass`]: it asks for every draw and
/// every sum that it needs, and what comes out are the chromosomes of the next
/// population, in the order in which they were made, with the statistics of
/// the population that they were bred from.
pub struct Evolution<'a, S: SelectionMethod, C: CrossoverMethod, M: MutationMethod> {
    algorithm: &'a GeneticAlgorithm<S, C, M>,
    weights: Vec<u32>,
    parents: Vec<Chromosome>,
    children: Vec<Chromosome>,
    phase: Phase<S, C, M>,
}

/// The state of a generation.
pub struct EvolutionState<S: SelectionMethod, C: CrossoverMethod, M: MutationMethod> {
    /// How parents are chosen.
    pub selection: S,
    /// How two parents are crossed.
    pub crossover: C,
    /// How a child is changed.
    pub mutation: M,
    /// The fitness of each member of the population, in its order.
    pub weights: Seq<u32>,
    /// The genes of each member of the population, in its order.
    pub parents: Seq<Seq<u32>>,
    /// The genes of the children made so far, in the order of their making.
    pub children: Seq<Seq<u32>>,
    /// What the generation is busy with.
    pub phase: PhaseState<S, C, M>,
}

/// The genes of each of the chromosomes.
pub open spec fn genes_of(chromosomes: Seq<Chromosome>) -> Seq<Seq<u32>> {
    Seq::new(chromosomes.len(), |i: int| chromosomes[i]@)
}

/// The number of children that are still to be made.
pub open spec fn missing<S: SelectionMethod, C: CrossoverMethod, M: MutationMethod>(
    state: EvolutionState<S, C, M>,
) -> nat {
    if state.children.len() < state.parents.len() {
        (state.parents.len() - state.children.len()) as nat
    } else {
        0
    }
}

/// The number of steps that are still to be taken for the child in the making.
pub open spec fn steps_left<S: SelectionMethod, C: CrossoverMethod, M: MutationMethod>(
    phase: PhaseState<S, C, M>,
) -> nat {
    match phase {
        PhaseState::First(_) => 4,
        PhaseState::Second(_, _) => 3,
        PhaseState::Crossing(_) => 2,
        PhaseState::Mutating(_) => 1,
        _ => 0,
    }
}

/// Whether the parts of a state fit together: as many weights as parents, at
/// least one parent, no more children than parents, and whatever is in
/// progress in a state of its own kind.
pub open spec fn coherent<S: SelectionMethod, C: CrossoverMethod, M: MutationMethod>(
    state: EvolutionState<S, C, M>,
) -> bool {
    &&& state.parents.len() == state.weights.len()
    &&& state.parents.len() > 0
    &&& match state.phase {
        PhaseState::First(run) => {
            &&& state.children.len() < state.parents.len()
            &&& <S::Run as Pass>::valid(run)
            &&& S::size(run) == state.parents.len()
        },
        PhaseState::Second(first, run) => {
            &&& state.children.len() < state.parents.len()
            &&& first < state.parents.len()
            &&& <S::Run as Pass>::valid(run)
            &&& S::size(run) == state.parents.len()
        },
        PhaseState::Crossing(run) => {
            &&& state.children.len() < state.parents.len()
            &&& <C::Run as Pass>::valid(run)
        },
        PhaseState::Mutating(run) => {
            &&& state.children.len() < state.parents.len()
            &&& <M::Run as Pass>::valid(run)
        },
        PhaseState::Averaging => state.children.len() == state.parents.len(),
        PhaseState::Bred(_) => state.children.len() == state.parents.len(),
        PhaseState::Failed(_) => true,
    }
}

/// What is in progress in a state asks for something.
pub open spec fn settled<S: SelectionMethod, C: CrossoverMethod, M: MutationMethod>(
    state: EvolutionState<S, C, M>,
) -> bool {
    match state.phase {
        PhaseState::First(run) => <S::Run as Pass>::pending(run) is Some,
        PhaseState::Second(_, run) => <S::Run as Pass>::pending(run) is Some,
        PhaseState::Crossing(run) => <C::Run as Pass>::pending(run) is Some,
        PhaseState::Mutating(run) => <M::Run as Pass>::pending(run) is Some,
        _ => true,
    }
}

/// Goes on from a state until something is asked or the generation is over.
/// For each child in turn: the first parent is chosen, then the second, each
/// among the whole population and by the fitness of its members; the two are
/// crossed; what comes out is changed; what comes out of that is the child.
/// After as many children as there are parents, the mean fitness is asked for.
/// Where choosing or crossing cannot begin, the generation fails.
pub open spec fn settle<S: SelectionMethod, C: CrossoverMethod, M: MutationMethod>(
    state: EvolutionState<S, C, M>,
) -> EvolutionState<S, C, M>
    decreases missing(state), steps_left(state.phase),
{
    match state.phase {
        PhaseState::First(run) => if <S::Run as Pass>::pending(run) is Some {
            state
        } else {
            match state.selection.started(state.weights) {
                Ok(next) => settle(
                    EvolutionState {
                        phase: PhaseState::Second(<S::Run as Pass>::outcome(run), next),
                        ..state
                    },
                ),
                Err(error) => EvolutionState { phase: PhaseState::Failed(error), ..state },
            }
        },
        PhaseState::Second(first, run) => if <S::Run as Pass>::pending(run) is Some {
            state
        } else {
            let second = <S::Run as Pass>::outcome(run);
            match state.crossover.started(
                state.parents[first as int],
                state.parents[second as int],
            ) {
                Ok(next) => settle(EvolutionState { phase: PhaseState::Crossing(next), ..state }),
                Err(error) => EvolutionState { phase: PhaseState::Failed(error), ..state },
            }
        },
        PhaseState::Crossing(run) => if <C::Run as Pass>::pending(run) is Some {
            state
        } else {
            settle(
                EvolutionState {
                    phase: PhaseState::Mutating(
                        state.mutation.started(<C::Run as Pass>::outcome(run)),
                    ),
                    ..state
                },
            )
        },
        PhaseState::Mutating(run) => if <M::Run as Pass>::pending(run) is Some {
            state
        } else {
            let children = state.children.push(<M::Run as Pass>::outcome(run));
            if children.len() >= state.parents.len() {
                EvolutionState { children, phase: PhaseState::Averaging, ..state }
            } else {
                match state.selection.started(state.weights) {
                    Ok(next) => settle(
                        EvolutionState { children, phase: PhaseState::First(next), ..state },
                    ),
                    Err(error) => EvolutionState {
                        children,
                        phase: PhaseState::Failed(error),
                        ..state
                    },
                }
            }
        },
        _ => state,
    }
}

/// Hands a reply to what is in progress.
pub open spec fn handed<S: SelectionMethod, C: CrossoverMethod, M: MutationMethod>(
    state: EvolutionState<S, C, M>,
    reply: Reply,
) -> EvolutionState<S, C, M> {
    match state.phase {
        PhaseState::First(run) => EvolutionState {
            phase: PhaseState::First(<S::Run as Pass>::after(run, reply)),
            ..state
        },
        PhaseState::Second(first, run) => EvolutionState {
            phase: PhaseState::Second(first, <S::Run as Pass>::after(run, reply)),
            ..state
        },
        PhaseState::Crossing(run) => EvolutionState {
            phase: PhaseState::Crossing(<C::Run as Pass>::after(run, reply)),
            ..state
        },
        PhaseState::Mutating(run) => EvolutionState {
            phase: PhaseState::Mutating(<M::Run as Pass>::after(run, reply)),
            ..state
        },
        PhaseState::Averaging => match reply {
            Reply::Value(mean) => EvolutionState { phase: PhaseState::Bred(mean), ..state },
            _ => state,
        },
        _ => state,
    }
}

/// Going on from a state whose parts fit together ends in a state that a
/// generation can be in, with the same population and the same three methods.
pub proof fn lemma_settle<S: SelectionMethod, C: CrossoverMethod, M: MutationMethod>(
    state: EvolutionState<S, C, M>,
)
    requires
        coherent(state),
    ensures
        coherent(settle(state)),
        settled(settle(state)),
        settle(state).parents == state.parents,
        settle(state).weights == state.weights,
        settle(state).selection == state.selection,
        settle(state).crossover == state.crossover,
        settle(state).mutation == state.mutation,
    decreases missing(state), steps_left(state.phase),
{
    match state.phase {
        PhaseState::First(run) => {
            if <S::Run as Pass>::pending(run) is None {
                S::lemma_outcome_in_range(run);
                state.selection.lemma_started(state.weights);
                match state.selection.started(state.weights) {
                    Ok(next) => {
                        lemma_settle(
                            EvolutionState {
                                phase: PhaseState::Second(<S::Run as Pass>::outcome(run), next),
                                ..state
                            },
                        );
                    },
                    Err(_) => {},
                }
            }
        },
        PhaseState::Second(first, run) => {
            if <S::Run as Pass>::pending(run) is None {
                S::lemma_outcome_in_range(run);
                let second = <S::Run as Pass>::outcome(run);
                state.crossover.lemma_started(
                    state.parents[first as int],
                    state.parents[second as int],
                );
                match state.crossover.started(
                    state.parents[first as int],
                    state.parents[second as int],
                ) {
                    Ok(next) => {
                        lemma_settle(
                            EvolutionState { phase: PhaseState::Crossing(next), ..state },
                        );
                    },
                    Err(_) => {},
                }
            }
        },
        PhaseState::Crossing(run) => {
            if <C::Run as Pass>::pending(run) is None {
                state.mutation.lemma_started(<C::Run as Pass>::outcome(run));
                lemma_settle(
                    EvolutionState {
                        phase: PhaseState::Mutating(
                            state.mutation.started(<C::Run as Pass>::outcome(run)),
                        ),
                        ..state
                    },
                );
            }
        },
        PhaseState::Mutating(run) => {
            if <M::Run as Pass>::pending(run) is None {
                let children = state.children.push(<M::Run as Pass>::outcome(run));
                if children.len() < state.parents.len() {
                    state.selection.lemma_started(state.weights);
                    match state.selection.started(state.weights) {
                        Ok(next) => {
                            lemma_settle(
                                EvolutionState {
                                    children,
                                    phase: PhaseState::First(next),
                                    ..state
                                },
                            );
                        },
                        Err(_) => {},
                    }
                }
            }
        },
        _ => {},
    }
}

impl<S: SelectionMethod, C: CrossoverMethod, M: MutationMethod> GeneticAlgorithm<S, C, M> {
    /// How parents are chosen.
    pub closed spec fn selection_method(&self) -> S {
        self.selection_method
    }

    /// How two parents are crossed.
    pub closed spec fn crossover_method(&self) -> C {
        self.crossover_method
    }

    /// How a child is changed.
    pub closed spec fn mutation_method(&self) -> M {
        self.mutation_method
    }

    /// The algorithm that works with the three given methods.
    pub fn new(selection_method: S, crossover_method: C, mutation_method: M) -> (algorithm: Self)
        ensures
            algorithm.selection_method() == selection_method,
            algorithm.crossover_method() == crossover_method,
            algorithm.mutation_method() == mutation_method,
    {
        GeneticAlgorithm { selection_method, crossover_method, mutation_method }
    }

    /// The state in which a generation begins, or why it cannot begin: a
    /// population needs a member, and a fitness for each member. `parents`
    /// holds the genes and `weights` the fitness of each member, both in the
    /// order of the population.
    pub open spec fn started(&self, parents: Seq<Seq<u32>>, weights: Seq<u32>) -> Result<
        EvolutionState<S, C, M>,
        Error,
    > {
        if parents.len() == 0 {
            Err(Error::EmptyPopulation)
        } else if parents.len() != weights.len() {
            Err(Error::LengthMismatch)
        } else {
            match self.selection_method().started(weights) {
                Ok(run) => Ok(
                    settle(
                        EvolutionState {
                            selection: self.selection_method(),
                            crossover: self.crossover_method(),
                            mutation: self.mutation_method(),
                            weights,
                            parents,
                            children: Seq::empty(),
                            phase: PhaseState::First(run),
                        },
                    ),
                ),
                Err(error) => Err(error),
            }
        }
    }

    /// A generation begins in a state that a generation can be in, with the
    /// given population, the three methods of the algorithm, and no child.
    pub proof fn lemma_started(&self, parents: Seq<Seq<u32>>, weights: Seq<u32>)
        ensures
            self.started(parents, weights) matches Ok(state) ==> {
                &&& Evolution::<S, C, M>::valid(state)
                &&& state.parents == parents
                &&& state.weights == weights
                &&& state.selection == self.selection_method()
                &&& state.crossover == self.crossover_method()
                &&& state.mutation == self.mutation_method()
            },
    {
        if parents.len() > 0 && parents.len() == weights.len() {
            self.selection_method().lemma_started(weights);
            match self.selection_method().started(weights) {
                Ok(run) => {
                    lemma_settle(
                        EvolutionState {
                            selection: self.selection_method(),
                            crossover: self.crossover_method(),
                            mutation: self.mutation_method(),
                            weights,
                            parents,
                            children: Seq::empty(),
                            phase: PhaseState::First(run),
                        },
                    );
                },
                Err(_) => {},
            }
        }
    }

    /// Begins a generation. `parents` holds the chromosome and `weights` the
    /// fitness of each member of the population, both in its order.
    pub fn begin(&self, parents: Vec<Chromosome>, weights: Vec<u32>) -> (run: Result<
        Evolution<'_, S, C, M>,
        Error,
    >)
        ensures
            run matches Ok(r) ==> self.started(genes_of(parents@), weights@) == Ok::<
                EvolutionState<S, C, M>,
                Error,
            >(r.model()) && Evolution::<S, C, M>::valid(r.model()),
            run matches Err(e) ==> self.started(genes_of(parents@), weights@) == Err::<
                EvolutionState<S, C, M>,
                Error,
            >(e),
    {
        if parents.len() == 0 {
            return Err(Error::EmptyPopulation);
        }
        if parents.len() != weights.len() {
            return Err(Error::LengthMismatch);
        }
        proof {
            self.selection_method.lemma_started(weights@);
            self.lemma_started(genes_of(parents@), weights@);
        }
        match self.selection_method.select(&weights) {
            Ok(first) => {
                let mut evolution = Evolution {
                    algorithm: self,
                    weights,
                    parents,
                    children: Vec::new(),
                    phase: Phase::First(first),
                };
                assert(evolution.model().children == Seq::<Seq<u32>>::empty());
                evolution.settle();
                Ok(evolution)
            },
            Err(error) => Err(error),
        }
    }

    /// Begins a generation from a population: each member is asked for its
    /// fitness and for its chromosome, in the order of the population, and
    /// the generation begins with what the members answered. An empty
    /// population is refused.
    pub fn evolve<I: Individual>(&self, population: &[I]) -> (run: Result<
        Evolution<'_, S, C, M>,
        Error,
    >)
        ensures
            population@.len() == 0 ==> (run matches Err(e) && e == Error::EmptyPopulation),
            run matches Ok(r) ==> Evolution::<S, C, M>::valid(r.model()),
            exists|chromosomes: Seq<Chromosome>, weights: Seq<u32>|
                {
                    &&& chromosomes.len() == population@.len()
                    &&& weights.len() == population@.len()
                    &&& forall|i: int|
                        0 <= i < population@.len() ==> call_ensures(
                            I::fitness,
                            (&population@[i],),
                            #[trigger] weights[i],
                        )
                    &&& forall|i: int|
                        0 <= i < population@.len() ==> call_ensures(
                            I::chromosome,
                            (&population@[i],),
                            &#[trigger] chromosomes[i],
                        )
                    &&& match run {
                        Ok(r) => #[trigger] self.started(genes_of(chromosomes), weights) == Ok::<
                            EvolutionState<S, C, M>,
                            Error,
                        >(r.model()),
                        Err(e) => self.started(genes_of(chromosomes), weights) == Err::<
                            EvolutionState<S, C, M>,
                            Error,
                        >(e),
                    }
                },
    {
        let mut weights: Vec<u32> = Vec::new();
        let mut parents: Vec<Chromosome> = Vec::new();
        let ghost mut chromosomes: Seq<Chromosome> = Seq::empty();
        let mut seen: usize = 0;
        while seen < population.len()
            invariant
                seen <= population@.len(),
                weights@.len() == seen,
                parents@.len() == seen,
                chromosomes.len() == seen,
                genes_of(parents@) == genes_of(chromosomes),
                forall|i: int|
                    0 <= i < seen ==> call_ensures(
                        I::fitness,
                        (&population@[i],),
                        #[trigger] weights@[i],
                    ),
                forall|i: int|
                    0 <= i < seen ==> call_ensures(
                        I::chromosome,
                        (&population@[i],),
                        &#[trigger] chromosomes[i],
                    ),
            decreases population@.len() - seen,
        {
            let ghost genes = genes_of(chromosomes);
            let member = &population[seen];
            weights.push(member.fitness());
            let chromosome = member.chromosome();
            proof {
                chromosomes = chromosomes.push(*chromosome);
            }
            parents.push(chromosome.clone());
            assert(genes_of(parents@) == genes.push(chromosome@));
            assert(genes_of(chromosomes) == genes.push(chromosome@));
            seen = seen + 1;
        }
        let run = self.begin(parents, weights);
        assert(self.started(genes_of(chromosomes), weights@) == self.started(
            genes_of(parents@),
            weights@,
        ));
        run
    }
}

impl<'a, S: SelectionMethod, C: CrossoverMethod, M: MutationMethod> Evolution<'a, S, C, M> {
    /// Goes on until something is asked or the generation is over.
    fn settle(&mut self)
        requires
            coherent(old(self).model()),
        ensures
            final(self).model() == settle(old(self).model()),
    {
        loop
            invariant
                coherent(self.model()),
                settle(self.model()) == settle(old(self).model()),
            ensures
                self.model() == settle(old(self).model()),
            decreases missing(self.model()), steps_left(self.model().phase),
        {
            let ghost before = self.model();
            let mut phase: Phase<S, C, M> = Phase::Averaging;
            core::mem::swap(&mut self.phase, &mut phase);
            match phase {
                Phase::First(run) => {
                    if !run.is_finished() {
                        self.phase = Phase::First(run);
                        assert(self.model() == before);
                        break ;
                    }
                    proof {
                        S::lemma_outcome_in_range(run.model());
                        before.selection.lemma_started(before.weights);
                    }
                    let first = run.finish().unwrap();
                    proof {
                        S::lemma_shown(first);
                    }
                    match self.algorithm.selection_method.select(&self.weights) {
                        Ok(next) => {
                            self.phase = Phase::Second(first, next);
                            assert(self.model() == (EvolutionState {
                                phase: PhaseState::Second(first, next.model()),
                                ..before
                            }));
                        },
                        Err(error) => {
                            self.phase = Phase::Failed(error);
                            assert(self.model() == (EvolutionState {
                                phase: PhaseState::Failed(error),
                                ..before
                            }));
                            break ;
                        },
                    }
                },
                Phase::Second(first, run) => {
                    if !run.is_finished() {
                        self.phase = Phase::Second(first, run);
                        assert(self.model() == before);
                        break ;
                    }
                    proof {
                        S::lemma_outcome_in_range(run.model());
                    }
                    let second = run.finish().unwrap();
                    proof {
                        S::lemma_shown(second);
                        before.crossover.lemma_started(
                            before.parents[first as int],
                            before.parents[second as int],
                        );
                    }
                    match self.algorithm.crossover_method.crossover(
                        &self.parents[first],
                        &self.parents[second],
                    ) {
                        Ok(next) => {
                            self.phase = Phase::Crossing(next);
                            assert(self.model() == (EvolutionState {
                                phase: PhaseState::Crossing(next.model()),
                                ..before
                            }));
                        },
                        Err(error) => {
                            self.phase = Phase::Failed(error);
                            assert(self.model() == (EvolutionState {
                                phase: PhaseState::Failed(error),
                                ..before
                            }));
                            break ;
                        },
                    }
                },
                Phase::Crossing(run) => {
                    if !run.is_finished() {
                        self.phase = Phase::Crossing(run);
                        assert(self.model() == before);
                        break ;
                    }
                    let ghost crossed = <C::Run as Pass>::outcome(run.model());
                    proof {
                        before.mutation.lemma_started(crossed);
                    }
                    let child = run.finish().unwrap();
                    proof {
                        C::lemma_shown(child);
                    }
                    let next = self.algorithm.mutation_method.mutate(child);
                    self.phase = Phase::Mutating(next);
                    assert(self.model() == (EvolutionState {
                        phase: PhaseState::Mutating(next.model()),
                        ..before
                    }));
                },
                Phase::Mutating(run) => {
                    if !run.is_finished() {
                        self.phase = Phase::Mutating(run);
                        assert(self.model() == before);
                        break ;
                    }
                    let child = run.finish().unwrap();
                    proof {
                        M::lemma_shown(child);
                    }
                    let ghost children = before.children.push(child@);
                    self.children.push(child);
                    assert(genes_of(self.children@) == children);
                    if self.children.len() >= self.parents.len() {
                        self.phase = Phase::Averaging;
                        assert(self.model() == (EvolutionState {
                            children,
                            phase: PhaseState::Averaging,
                            ..before
                        }));
                        break ;
                    }
                    proof {
                        before.selection.lemma_started(before.weights);
                    }
                    match self.algorithm.selection_method.select(&self.weights) {
                        Ok(next) => {
                            self.phase = Phase::First(next);
                            assert(self.model() == (EvolutionState {
                                children,
                                phase: PhaseState::First(next.model()),
                                ..before
                            }));
                        },
                        Err(error) => {
                            self.phase = Phase::Failed(error);
                            assert(self.model() == (EvolutionState {
                                children,
                                phase: PhaseState::Failed(error),
                                ..before
                            }));
                            break ;
                        },
                    }
                },
                other => {
                    self.phase = other;
                    assert(self.model() == before);
                    break ;
                },
            }
        }
    }
}

impl<'a, S: SelectionMethod, C: CrossoverMethod, M: MutationMethod> Pass for Evolution<
    'a,
    S,
    C,
    M,
> {
    type Model = EvolutionState<S, C, M>;

    type Output = Result<(Vec<Chromosome>, Statistics), Error>;

    type Outcome = Result<(Seq<Seq<u32>>, Statistics), Error>;

    closed spec fn model(&self) -> EvolutionState<S, C, M> {
        EvolutionState {
            selection: self.algorithm.selection_method,
            crossover: self.algorithm.crossover_method,
            mutation: self.algorithm.mutation_method,
            weights: self.weights@,
            parents: genes_of(self.parents@),
            children: genes_of(self.children@),
            phase: match self.phase {
                Phase::First(run) => PhaseState::First(run.model()),
                Phase::Second(first, run) => PhaseState::Second(first, run.model()),
                Phase::Crossing(run) => PhaseState::Crossing(run.model()),
                Phase::Mutating(run) => PhaseState::Mutating(run.model()),
                Phase::Averaging => PhaseState::Averaging,
                Phase::Bred(mean) => PhaseState::Bred(mean),
                Phase::Failed(error) => PhaseState::Failed(error),
            },
        }
    }

    open spec fn valid(model: EvolutionState<S, C, M>) -> bool {
        coherent(model) && settled(model)
    }

    /// What is in progress asks; once all children are made, the mean of the
    /// parents' fitness is asked for; after that, nothing.
    open spec fn pending(model: EvolutionState<S, C, M>) -> Option<Ask> {
        match model.phase {
            PhaseState::First(run) => <S::Run as Pass>::pending(run),
            PhaseState::Second(_, run) => <S::Run as Pass>::pending(run),
            PhaseState::Crossing(run) => <C::Run as Pass>::pending(run),
            PhaseState::Mutating(run) => <M::Run as Pass>::pending(run),
            PhaseState::Averaging => Some(Ask::Average { values: model.weights }),
            _ => None,
        }
    }

    /// The reply goes to what is in progress, and the generation goes on from
    /// there as [`settle`] says.
    open spec fn after(model: EvolutionState<S, C, M>, reply: Reply) -> EvolutionState<S, C, M> {
        settle(handed(model, reply))
    }

    /// The children in the order of their making, and the least, the greatest
    /// and the mean fitness of the parents; or why the generation failed.
    open spec fn outcome(model: EvolutionState<S, C, M>) -> Result<
        (Seq<Seq<u32>>, Statistics),
        Error,
    > {
        match model.phase {
            PhaseState::Failed(error) => Err(error),
            PhaseState::Bred(mean) => Ok(
                (
                    model.children,
                    Statistics {
                        min_fitness: minimum(model.weights),
                        max_fitness: maximum(model.weights),
                        avg_fitness: mean,
                    },
                ),
            ),
            _ => Err(Error::EmptyPopulation),
        }
    }

    open spec fn shown(output: Result<(Vec<Chromosome>, Statistics), Error>) -> Result<
        (Seq<Seq<u32>>, Statistics),
        Error,
    > {
        match output {
            Ok((children, statistics)) => Ok((genes_of(children@), statistics)),
            Err(error) => Err(error),
        }
    }

    proof fn lemma_after_valid(model: EvolutionState<S, C, M>, reply: Reply) {
        lemma_handed(model, reply);
        lemma_settle(handed(model, reply));
    }

    fn is_finished(&self) -> (finished: bool) {
        match &self.phase {
            Phase::Bred(_) => true,
            Phase::Failed(_) => true,
            _ => false,
        }
    }

    fn request(&self) -> (request: Option<Request>) {
        match &self.phase {
            Phase::First(run) => run.request(),
            Phase::Second(_, run) => run.request(),
            Phase::Crossing(run) => run.request(),
            Phase::Mutating(run) => run.request(),
            Phase::Averaging => Some(Request::Average { values: self.weights.clone() }),
            _ => None,
        }
    }

    fn reply(&mut self, reply: Reply) -> (accepted: bool) {
        let ghost before = self.model();
        let mut phase: Phase<S, C, M> = Phase::Averaging;
        core::mem::swap(&mut self.phase, &mut phase);
        let accepted = match phase {
            Phase::First(mut run) => {
                let accepted = run.reply(reply);
                self.phase = Phase::First(run);
                accepted
            },
            Phase::Second(first, mut run) => {
                let accepted = run.reply(reply);
                self.phase = Phase::Second(first, run);
                accepted
            },
            Phase::Crossing(mut run) => {
                let accepted = run.reply(reply);
                self.phase = Phase::Crossing(run);
                accepted
            },
            Phase::Mutating(mut run) => {
                let accepted = run.reply(reply);
                self.phase = Phase::Mutating(run);
                accepted
            },
            Phase::Averaging => match reply {
                Reply::Value(mean) => {
                    self.phase = Phase::Bred(mean);
                    true
                },
                _ => {
                    self.phase = Phase::Averaging;
                    false
                },
            },
            other => {
                self.phase = other;
                false
            },
        };
        if accepted {
            assert(self.model() == handed(before, reply));
            proof {
                lemma_handed(before, reply);
                lemma_settle(handed(before, reply));
            }
            self.settle();
        } else {
            assert(self.model() == before);
        }
        accepted
    }

    fn finish(self) -> (output: Option<Result<(Vec<Chromosome>, Statistics), Error>>) {
        match self.phase {
            Phase::Bred(mean) => {
                match Statistics::new(&self.weights, mean) {
                    Ok(statistics) => Some(Ok((self.children, statistics))),
                    Err(error) => Some(Err(error)),
                }
            },
            Phase::Failed(error) => Some(Err(error)),
            _ => None,
        }
    }
}

/// A reply that answers what was asked leaves the parts of a state fitting
/// together.
pub proof fn lemma_handed<S: SelectionMethod, C: CrossoverMethod, M: MutationMethod>(
    state: EvolutionState<S, C, M>,
    reply: Reply,
)
    requires
        coherent(state),
        settled(state),
        admits(Evolution::<S, C, M>::pending(state), reply),
    ensures
        coherent(handed(state, reply)),
{
    match state.phase {
        PhaseState::First(run) => {
            <S::Run as Pass>::lemma_after_valid(run, reply);
            S::lemma_size_kept(run, reply);
        },
        PhaseState::Second(_, run) => {
            <S::Run as Pass>::lemma_after_valid(run, reply);
            S::lemma_size_kept(run, reply);
        },
        PhaseState::Crossing(run) => {
            <C::Run as Pass>::lemma_after_valid(run, reply);
        },
        PhaseState::Mutating(run) => {
            <M::Run as Pass>::lemma_after_valid(run, reply);
        },
        _ => {},
    }
}

/// Whatever is answered, a generation keeps the population that it began with
/// and the three methods that it works with.
pub proof fn lemma_population_kept<
    'a,
    S: SelectionMethod + 'a,
    C: CrossoverMethod + 'a,
    M: MutationMethod + 'a,
>(
    state: EvolutionState<S, C, M>,
    replies: Seq<Reply>,
)
    requires
        Evolution::<'a, S, C, M>::valid(state),
        admits_all::<Evolution<'a, S, C, M>>(state, replies),
    ensures
        Evolution::<'a, S, C, M>::valid(after_all::<Evolution<'a, S, C, M>>(state, replies)),
        after_all::<Evolution<'a, S, C, M>>(state, replies).parents == state.parents,
        after_all::<Evolution<'a, S, C, M>>(state, replies).weights == state.weights,
        after_all::<Evolution<'a, S, C, M>>(state, replies).selection == state.selection,
        after_all::<Evolution<'a, S, C, M>>(state, replies).crossover == state.crossover,
        after_all::<Evolution<'a, S, C, M>>(state, replies).mutation == state.mutation,
    decreases replies.len(),
{
    if replies.len() > 0 {
        let front = after_all::<Evolution<'a, S, C, M>>(state, replies.drop_last());
        lemma_population_kept::<S, C, M>(state, replies.drop_last());
        lemma_handed(front, replies.last());
        lemma_settle(handed(front, replies.last()));
    }
}

/// A generation that has come to its end without failing has made as many
/// children as the population has members, and its statistics are those of
/// that population: the least and the greatest fitness of its members, and
/// the mean as it was answered.
pub proof fn lemma_generation_size<
    'a,
    S: SelectionMethod + 'a,
    C: CrossoverMethod + 'a,
    M: MutationMethod + 'a,
>(
    algorithm: GeneticAlgorithm<S, C, M>,
    parents: Seq<Seq<u32>>,
    weights: Seq<u32>,
    replies: Seq<Reply>,
)
    requires
        algorithm.started(parents, weights) is Ok,
        admits_all::<Evolution<'a, S, C, M>>(algorithm.started(parents, weights)->Ok_0, replies),
        Evolution::<'a, S, C, M>::pending(
            after_all::<Evolution<'a, S, C, M>>(algorithm.started(parents, weights)->Ok_0, replies),
        ) is None,
    ensures
        Evolution::<'a, S, C, M>::outcome(
            after_all::<Evolution<'a, S, C, M>>(algorithm.started(parents, weights)->Ok_0, replies),
        ) matches Ok((children, statistics)) ==> children.len() == parents.len()
            && statistics.min_fitness == minimum(weights) && statistics.max_fitness == maximum(
            weights,
        ),
{
    algorithm.lemma_started(parents, weights);
    lemma_population_kept::<S, C, M>(algorithm.started(parents, weights)->Ok_0, replies);
}

/// While the first parent is being chosen, the replies go to the choosing:
/// the generation is where the choosing of the first parent has led it.
pub proof fn lemma_first_choice<
    'a,
    S: SelectionMethod + 'a,
    C: CrossoverMethod + 'a,
    M: MutationMethod + 'a,
>(state: EvolutionState<S, C, M>, run: <S::Run as Pass>::Model, replies: Seq<Reply>)
    requires
        coherent(state),
        state.phase == PhaseState::<S, C, M>::First(run),
        admits_all::<S::Run>(run, replies),
    ensures
        admits_all::<Evolution<'a, S, C, M>>(settle(state), replies),
        after_all::<Evolution<'a, S, C, M>>(settle(state), replies) == settle(
            EvolutionState {
                phase: PhaseState::First(after_all::<S::Run>(run, replies)),
                ..state
            },
        ),
        <S::Run as Pass>::valid(after_all::<S::Run>(run, replies)),
        S::size(after_all::<S::Run>(run, replies)) == S::size(run),
    decreases replies.len(),
{
    lemma_settle(state);
    if replies.len() > 0 {
        let front = replies.drop_last();
        lemma_first_choice::<S, C, M>(state, run, front);
        <S::Run as Pass>::lemma_after_valid(after_all::<S::Run>(run, front), replies.last());
        S::lemma_size_kept(after_all::<S::Run>(run, front), replies.last());
        let rested = EvolutionState {
            phase: PhaseState::First(after_all::<S::Run>(run, front)),
            ..state
        };
        assert(settle(rested) == rested);
        assert(handed(rested, replies.last()) == (EvolutionState {
            phase: PhaseState::First(after_all::<S::Run>(run, replies)),
            ..state
        }));
    }
}

/// While the second parent is being chosen, the replies go to the choosing:
/// the generation is where the choosing of the second parent has led it.
pub proof fn lemma_second_choice<
    'a,
    S: SelectionMethod + 'a,
    C: CrossoverMethod + 'a,
    M: MutationMethod + 'a,
>(state: EvolutionState<S, C, M>, first: usize, run: <S::Run as Pass>::Model, replies: Seq<Reply>)
    requires
        coherent(state),
        state.phase == PhaseState::<S, C, M>::Second(first, run),
        admits_all::<S::Run>(run, replies),
    ensures
        admits_all::<Evolution<'a, S, C, M>>(settle(state), replies),
        after_all::<Evolution<'a, S, C, M>>(settle(state), replies) == settle(
            EvolutionState {
                phase: PhaseState::Second(first, after_all::<S::Run>(run, replies)),
                ..state
            },
        ),
        <S::Run as Pass>::valid(after_all::<S::Run>(run, replies)),
        S::size(after_all::<S::Run>(run, replies)) == S::size(run),
    decreases replies.len(),
{
    lemma_settle(state);
    if replies.len() > 0 {
        let front = replies.drop_last();
        lemma_second_choice::<S, C, M>(state, first, run, front);
        <S::Run as Pass>::lemma_after_valid(after_all::<S::Run>(run, front), replies.last());
        S::lemma_size_kept(after_all::<S::Run>(run, front), replies.last());
        let rested = EvolutionState {
            phase: PhaseState::Second(first, after_all::<S::Run>(run, front)),
            ..state
        };
        assert(settle(rested) == rested);
        assert(handed(rested, replies.last()) == (EvolutionState {
            phase: PhaseState::Second(first, after_all::<S::Run>(run, replies)),
            ..state
        }));
    }
}

/// While two parents are being crossed, the replies go to the crossing: the
/// generation is where the crossing has led it.
pub proof fn lemma_crossing<
    'a,
    S: SelectionMethod + 'a,
    C: CrossoverMethod + 'a,
    M: MutationMethod + 'a,
>(state: EvolutionState<S, C, M>, run: <C::Run as Pass>::Model, replies: Seq<Reply>)
    requires
        coherent(state),
        state.phase == PhaseState::<S, C, M>::Crossing(run),
        admits_all::<C::Run>(run, replies),
    ensures
        admits_all::<Evolution<'a, S, C, M>>(settle(state), replies),
        after_all::<Evolution<'a, S, C, M>>(settle(state), replies) == settle(
            EvolutionState {
                phase: PhaseState::Crossing(after_all::<C::Run>(run, replies)),
                ..state
            },
        ),
        <C::Run as Pass>::valid(after_all::<C::Run>(run, replies)),
    decreases replies.len(),
{
    lemma_settle(state);
    if replies.len() > 0 {
        let front = replies.drop_last();
        lemma_crossing::<S, C, M>(state, run, front);
        <C::Run as Pass>::lemma_after_valid(after_all::<C::Run>(run, front), replies.last());
        let rested = EvolutionState {
            phase: PhaseState::Crossing(after_all::<C::Run>(run, front)),
            ..state
        };
        assert(settle(rested) == rested);
        assert(handed(rested, replies.last()) == (EvolutionState {
            phase: PhaseState::Crossing(after_all::<C::Run>(run, replies)),
            ..state
        }));
    }
}

/// While a child is being changed, the replies go to the changing: the
/// generation is where the changing has led it.
pub proof fn lemma_mutating<
    'a,
    S: SelectionMethod + 'a,
    C: CrossoverMethod + 'a,
    M: MutationMethod + 'a,
>(state: EvolutionState<S, C, M>, run: <M::Run as Pass>::Model, replies: Seq<Reply>)
    requires
        coherent(state),
        state.phase == PhaseState::<S, C, M>::Mutating(run),
        admits_all::<M::Run>(run, replies),
    ensures
        admits_all::<Evolution<'a, S, C, M>>(settle(state), replies),
        after_all::<Evolution<'a, S, C, M>>(settle(state), replies) == settle(
            EvolutionState {
                phase: PhaseState::Mutating(after_all::<M::Run>(run, replies)),
                ..state
            },
        ),
        <M::Run as Pass>::valid(after_all::<M::Run>(run, replies)),
    decreases replies.len(),
{
    lemma_settle(state);
    if replies.len() > 0 {
        let front = replies.drop_last();
        lemma_mutating::<S, C, M>(state, run, front);
        <M::Run as Pass>::lemma_after_valid(after_all::<M::Run>(run, front), replies.last());
        let rested = EvolutionState {
            phase: PhaseState::Mutating(after_all::<M::Run>(run, front)),
            ..state
        };
        assert(settle(rested) == rested);
        assert(handed(rested, replies.last()) == (EvolutionState {
            phase: PhaseState::Mutating(after_all::<M::Run>(run, replies)),
            ..state
        }));
    }
}

} // verus!
