//! The algorithm in its classic form: parents are chosen by the roulette
//! wheel, crossed uniformly, and the child is changed by Gaussian mutation.
//!
//! What holds of a generation of a population whose chromosomes all have one
//! length: it does not fail and every child has that length again
//! ([`lemma_classic_generation`]); it comes to its end after a number of
//! replies that the size of the population bounds
//! ([`lemma_classic_generation_ends`]); and what comes out of it is, child by
//! child, the crossing of two parents changed by the mutation, as the replies
//! say ([`lemma_classic_evolve`]).

use vstd::prelude::*;
use crate::algorithm::{
    coherent, handed, lemma_crossing, lemma_first_choice, lemma_handed, lemma_mutating,
    lemma_population_kept, lemma_second_choice, lemma_settle, missing, settle, steps_left,
    Evolution, EvolutionState, GeneticAlgorithm, PhaseState,
};
use crate::crossover::{
    flips, lemma_uniform_crossover, uniform_child, CrossoverMethod, UniformCrossover,
    UniformCrossoverRun,
};
use crate::error::Error;
use crate::mutation::{
    answers, lemma_gaussian_mutation, mutated, GaussianMutation, GaussianMutationRun, GeneDraw,
    MutationMethod, Stage,
};
use crate::protocol::{
    admits, admits_all, after_all, lemma_after_all_concat, lemma_after_all_push, Pass, Reply,
};
use crate::selection::{
    RouletteWheelRun, RouletteWheelSelection, RouletteWheelState, SelectionMethod,
};
use crate::statistics::{maximum, minimum, Statistics};

verus! {

/// The algorithm with the three classic methods.
pub type Classic = GeneticAlgorithm<RouletteWheelSelection, UniformCrossover, GaussianMutation>;

/// The state of a generation of the classic algorithm.
pub type ClassicState = EvolutionState<RouletteWheelSelection, UniformCrossover, GaussianMutation>;

/// A generation of the classic algorithm.
pub type ClassicEvolution<'a> = Evolution<
    'a,
    RouletteWheelSelection,
    UniformCrossover,
    GaussianMutation,
>;

/// Whether every chromosome of a state has the given length: each parent,
/// each child, and the child in the making; and the generation has not failed.
pub open spec fn uniform(state: ClassicState, length: nat) -> bool {
    &&& forall|i: int| 0 <= i < state.parents.len() ==> (#[trigger] state.parents[i]).len() == length
    &&& forall|i: int|
        0 <= i < state.children.len() ==> (#[trigger] state.children[i]).len() == length
    &&& match state.phase {
        PhaseState::Crossing(run) => run.parent_a.len() == length,
        PhaseState::Mutating(run) => run.genes.len() == length,
        PhaseState::Failed(_) => false,
        _ => true,
    }
}

/// Going on keeps every chromosome at its length.
proof fn lemma_uniform_settle(state: ClassicState, length: nat)
    requires
        coherent(state),
        uniform(state, length),
    ensures
        uniform(settle(state), length),
    decreases missing(state), steps_left(state.phase),
{
    match state.phase {
        PhaseState::First(run) => {
            if RouletteWheelRun::pending(run) is None {
                let next = state.selection.started(state.weights)->Ok_0;
                lemma_uniform_settle(
                    EvolutionState {
                        phase: PhaseState::Second(RouletteWheelRun::outcome(run), next),
                        ..state
                    },
                    length,
                );
            }
        },
        PhaseState::Second(first, run) => {
            if RouletteWheelRun::pending(run) is None {
                let second = RouletteWheelRun::outcome(run);
                let next = state.crossover.started(
                    state.parents[first as int],
                    state.parents[second as int],
                )->Ok_0;
                lemma_uniform_settle(
                    EvolutionState { phase: PhaseState::Crossing(next), ..state },
                    length,
                );
            }
        },
        PhaseState::Crossing(run) => {
            if UniformCrossoverRun::pending(run) is None {
                lemma_uniform_settle(
                    EvolutionState {
                        phase: PhaseState::Mutating(
                            state.mutation.started(UniformCrossoverRun::outcome(run)),
                        ),
                        ..state
                    },
                    length,
                );
            }
        },
        PhaseState::Mutating(run) => {
            if GaussianMutationRun::pending(run) is None {
                let children = state.children.push(GaussianMutationRun::outcome(run));
                if children.len() < state.parents.len() {
                    let next = state.selection.started(state.weights)->Ok_0;
                    lemma_uniform_settle(
                        EvolutionState { children, phase: PhaseState::First(next), ..state },
                        length,
                    );
                }
            }
        },
        _ => {},
    }
}

/// Whatever is answered, every chromosome of a generation keeps its length,
/// and the generation does not fail.
pub proof fn lemma_uniform_kept<'a>(state: ClassicState, length: nat, replies: Seq<Reply>)
    requires
        ClassicEvolution::<'a>::valid(state),
        uniform(state, length),
        admits_all::<ClassicEvolution<'a>>(state, replies),
    ensures
        ClassicEvolution::<'a>::valid(after_all::<ClassicEvolution<'a>>(state, replies)),
        uniform(after_all::<ClassicEvolution<'a>>(state, replies), length),
    decreases replies.len(),
{
    if replies.len() > 0 {
        let front = after_all::<ClassicEvolution<'a>>(state, replies.drop_last());
        lemma_uniform_kept(state, length, replies.drop_last());
        lemma_handed(front, replies.last());
        lemma_settle(handed(front, replies.last()));
        lemma_uniform_settle(handed(front, replies.last()), length);
    }
}

/// A population with at least one member, a fitness for each member and
/// chromosomes of one length is bred without failure: the generation begins,
/// it does not fail whatever is answered, and once it has come to its end
/// there are as many children as members, each of that one length.
pub proof fn lemma_classic_generation<'a>(
    algorithm: Classic,
    parents: Seq<Seq<u32>>,
    weights: Seq<u32>,
    replies: Seq<Reply>,
)
    requires
        parents.len() > 0,
        parents.len() == weights.len(),
        forall|i: int| 0 <= i < parents.len() ==> (#[trigger] parents[i]).len() == parents[0].len(),
        admits_all::<ClassicEvolution<'a>>(algorithm.started(parents, weights)->Ok_0, replies),
    ensures
        algorithm.started(parents, weights) is Ok,
        ({
            let end = after_all::<ClassicEvolution<'a>>(
                algorithm.started(parents, weights)->Ok_0,
                replies,
            );
            let outcome = ClassicEvolution::<'a>::outcome(end);
            &&& !(end.phase is Failed)
            &&& ClassicEvolution::<'a>::pending(end) is None ==> outcome is Ok
            &&& outcome matches Ok((children, _)) ==> {
                &&& children.len() == parents.len()
                &&& forall|k: int|
                    0 <= k < children.len() ==> (#[trigger] children[k]).len() == parents[0].len()
            }
        }),
{
    let length = parents[0].len();
    let first = algorithm.selection_method().started(weights)->Ok_0;
    let entry = EvolutionState {
        selection: algorithm.selection_method(),
        crossover: algorithm.crossover_method(),
        mutation: algorithm.mutation_method(),
        weights,
        parents,
        children: Seq::empty(),
        phase: PhaseState::First(first),
    };
    algorithm.lemma_started(parents, weights);
    algorithm.selection_method().lemma_started(weights);
    lemma_uniform_settle(entry, length);
    let start = algorithm.started(parents, weights)->Ok_0;
    lemma_uniform_kept(start, length, replies);
    lemma_population_kept::<RouletteWheelSelection, UniformCrossover, GaussianMutation>(
        start,
        replies,
    );
}

/// The most replies that the making of one child takes: two choices of a
/// parent, a coin for each gene, and three answers for each gene.
spec fn child_cost(length: nat) -> int {
    2 + 4 * (length as int)
}

/// The number of answers that a mutation has taken for the gene it has come
/// to.
spec fn answered(stage: Stage) -> int {
    match stage {
        Stage::Sign => 0,
        Stage::Touch => 1,
        Stage::Magnitude => 2,
    }
}

/// A number of replies that a generation, whose chromosomes all have the
/// given length, cannot take more than. Each reply that is taken makes it
/// smaller.
spec fn owed(state: ClassicState, length: nat) -> int {
    let rest = (state.parents.len() - state.children.len()) * child_cost(length);
    match state.phase {
        PhaseState::First(run) => rest + 1 - (if run.chosen is Some {
            1int
        } else {
            0int
        }),
        PhaseState::Second(_, run) => rest - (if run.chosen is Some {
            1int
        } else {
            0int
        }),
        PhaseState::Crossing(run) => rest - 1 - run.child.len(),
        PhaseState::Mutating(run) => rest - 1 - length - 3 * run.position - answered(run.stage),
        PhaseState::Averaging => 1,
        _ => 0,
    }
}

/// Going on takes no reply.
proof fn lemma_owed_settle(state: ClassicState, length: nat)
    requires
        coherent(state),
        uniform(state, length),
    ensures
        owed(settle(state), length) == owed(state, length),
    decreases missing(state), steps_left(state.phase),
{
    match state.phase {
        PhaseState::First(run) => {
            if RouletteWheelRun::pending(run) is None {
                let next = state.selection.started(state.weights)->Ok_0;
                let onward = EvolutionState {
                    phase: PhaseState::Second(RouletteWheelRun::outcome(run), next),
                    ..state
                };
                lemma_owed_settle(onward, length);
            }
        },
        PhaseState::Second(first, run) => {
            if RouletteWheelRun::pending(run) is None {
                let second = RouletteWheelRun::outcome(run);
                let next = state.crossover.started(
                    state.parents[first as int],
                    state.parents[second as int],
                )->Ok_0;
                let onward = EvolutionState { phase: PhaseState::Crossing(next), ..state };
                lemma_owed_settle(onward, length);
            }
        },
        PhaseState::Crossing(run) => {
            if UniformCrossoverRun::pending(run) is None {
                let onward = EvolutionState {
                    phase: PhaseState::Mutating(
                        state.mutation.started(UniformCrossoverRun::outcome(run)),
                    ),
                    ..state
                };
                lemma_owed_settle(onward, length);
            }
        },
        PhaseState::Mutating(run) => {
            if GaussianMutationRun::pending(run) is None {
                let children = state.children.push(GaussianMutationRun::outcome(run));
                let left = state.parents.len() - state.children.len();
                assert((left - 1) * child_cost(length) == left * child_cost(length) - child_cost(
                    length,
                )) by (nonlinear_arith);
                if children.len() < state.parents.len() {
                    let next = state.selection.started(state.weights)->Ok_0;
                    let onward = EvolutionState {
                        children,
                        phase: PhaseState::First(next),
                        ..state
                    };
                    lemma_owed_settle(onward, length);
                    assert(owed(onward, length) == owed(state, length));
                } else {
                    assert(left == 1);
                }
            }
        },
        _ => {},
    }
}

/// Every reply that is taken brings the end of the generation nearer, and
/// the end is never further away than nothing.
proof fn lemma_owed_less<'a>(state: ClassicState, length: nat, reply: Reply)
    requires
        ClassicEvolution::<'a>::valid(state),
        uniform(state, length),
        admits(ClassicEvolution::<'a>::pending(state), reply),
    ensures
        0 <= owed(ClassicEvolution::<'a>::after(state, reply), length) < owed(state, length),
{
    let next = handed(state, reply);
    lemma_handed(state, reply);
    lemma_settle(next);
    lemma_owed_settle(next, length);
    lemma_uniform_settle(next, length);
    lemma_owed_bounded(settle(next), length);
}

/// The end of a generation is never further away than nothing.
proof fn lemma_owed_bounded(state: ClassicState, length: nat)
    requires
        coherent(state),
        uniform(state, length),
    ensures
        0 <= owed(state, length),
{
    let left = missing(state) as int;
    if left >= 1 {
        assert(left * child_cost(length) >= child_cost(length)) by (nonlinear_arith)
            requires
                left >= 1,
                child_cost(length) >= 0,
        ;
    } else {
        assert(left * child_cost(length) == 0) by (nonlinear_arith)
            requires
                left == 0,
        ;
    }
}

/// No generation takes more replies than is owed when it begins.
proof fn lemma_owed_all<'a>(state: ClassicState, length: nat, replies: Seq<Reply>)
    requires
        ClassicEvolution::<'a>::valid(state),
        uniform(state, length),
        admits_all::<ClassicEvolution<'a>>(state, replies),
    ensures
        replies.len() + owed(after_all::<ClassicEvolution<'a>>(state, replies), length) <= owed(
            state,
            length,
        ),
        0 <= owed(after_all::<ClassicEvolution<'a>>(state, replies), length),
    decreases replies.len(),
{
    if replies.len() > 0 {
        let front = after_all::<ClassicEvolution<'a>>(state, replies.drop_last());
        lemma_owed_all(state, length, replies.drop_last());
        lemma_uniform_kept(state, length, replies.drop_last());
        lemma_owed_less(front, length, replies.last());
    } else {
        lemma_owed_bounded(state, length);
    }
}

/// A generation of a population whose chromosomes all have one length comes
/// to its end: it takes no more replies than, for each member, two choices
/// of a parent and four answers for each gene, and one more for the mean.
pub proof fn lemma_classic_generation_ends<'a>(
    algorithm: Classic,
    parents: Seq<Seq<u32>>,
    weights: Seq<u32>,
    replies: Seq<Reply>,
)
    requires
        parents.len() > 0,
        parents.len() == weights.len(),
        forall|i: int| 0 <= i < parents.len() ==> (#[trigger] parents[i]).len() == parents[0].len(),
        admits_all::<ClassicEvolution<'a>>(algorithm.started(parents, weights)->Ok_0, replies),
    ensures
        replies.len() <= parents.len() * (2 + 4 * parents[0].len()) + 1,
{
    let length = parents[0].len();
    let first = algorithm.selection_method().started(weights)->Ok_0;
    let entry = EvolutionState {
        selection: algorithm.selection_method(),
        crossover: algorithm.crossover_method(),
        mutation: algorithm.mutation_method(),
        weights,
        parents,
        children: Seq::empty(),
        phase: PhaseState::First(first),
    };
    algorithm.lemma_started(parents, weights);
    algorithm.selection_method().lemma_started(weights);
    lemma_uniform_settle(entry, length);
    lemma_owed_settle(entry, length);
    let start = algorithm.started(parents, weights)->Ok_0;
    lemma_owed_all(start, length, replies);
    assert(owed(entry, length) == parents.len() * (2 + 4 * length) + 1);
}

/// What is drawn for one child: the indices of its two parents, a coin for
/// each gene of the crossing, and the draws for each gene of the mutation.
pub struct Breeding {
    pub first: usize,
    pub second: usize,
    pub coins: Seq<bool>,
    pub draws: Seq<GeneDraw>,
}

/// Whether what is drawn for a child fits a population of so many members
/// with chromosomes of such a length.
pub open spec fn fits(breeding: Breeding, members: nat, length: nat) -> bool {
    &&& breeding.first < members
    &&& breeding.second < members
    &&& breeding.coins.len() == length
    &&& breeding.draws.len() == length
}

/// The replies that hand over what is drawn for one child: the first parent,
/// the second parent, the coins, and the draws of the mutation gene by gene.
pub open spec fn replies_for(breeding: Breeding) -> Seq<Reply> {
    seq![Reply::Chosen(breeding.first)] + seq![Reply::Chosen(breeding.second)] + flips(
        breeding.coins,
    ) + answers(breeding.draws)
}

/// The replies that hand over what is drawn for one child after the other.
pub open spec fn replies_for_all(breedings: Seq<Breeding>) -> Seq<Reply>
    decreases breedings.len(),
{
    if breedings.len() == 0 {
        Seq::empty()
    } else {
        replies_for_all(breedings.drop_last()) + replies_for(breedings.last())
    }
}

/// The child that is made of what is drawn for it: the crossing of its two
/// parents by the coins, changed by the draws of the mutation.
pub open spec fn child_of(parents: Seq<Seq<u32>>, breeding: Breeding) -> Seq<u32> {
    mutated(
        uniform_child(
            parents[breeding.first as int],
            parents[breeding.second as int],
            breeding.coins,
        ),
        breeding.draws,
    )
}

/// The children that are made of what is drawn for each, in order.
pub open spec fn children_of(parents: Seq<Seq<u32>>, breedings: Seq<Breeding>) -> Seq<Seq<u32>> {
    Seq::new(breedings.len(), |k: int| child_of(parents, breedings[k]))
}

/// The state of a generation between two children: the first parent of the
/// next child is about to be chosen, or, after the last child, the mean is
/// about to be asked for.
pub open spec fn between(
    mutation: GaussianMutation,
    weights: Seq<u32>,
    parents: Seq<Seq<u32>>,
    children: Seq<Seq<u32>>,
) -> ClassicState {
    EvolutionState {
        selection: RouletteWheelSelection,
        crossover: UniformCrossover,
        mutation,
        weights,
        parents,
        children,
        phase: if children.len() < parents.len() {
            PhaseState::First(RouletteWheelState { weights, chosen: None })
        } else {
            PhaseState::Averaging
        },
    }
}

/// What is drawn for one child leads from the state before the child to the
/// state after it, in which the child that is made of it is the last.
proof fn lemma_breeding<'a>(
    mutation: GaussianMutation,
    weights: Seq<u32>,
    parents: Seq<Seq<u32>>,
    children: Seq<Seq<u32>>,
    breeding: Breeding,
    length: nat,
)
    requires
        parents.len() == weights.len(),
        children.len() < parents.len(),
        forall|i: int| 0 <= i < parents.len() ==> (#[trigger] parents[i]).len() == length,
        fits(breeding, parents.len(), length),
    ensures
        admits_all::<ClassicEvolution<'a>>(
            between(mutation, weights, parents, children),
            replies_for(breeding),
        ),
        after_all::<ClassicEvolution<'a>>(
            between(mutation, weights, parents, children),
            replies_for(breeding),
        ) == between(mutation, weights, parents, children.push(child_of(parents, breeding))),
        child_of(parents, breeding).len() == length,
{
    let fresh = RouletteWheelState { weights, chosen: None };
    let parent_a = parents[breeding.first as int];
    let parent_b = parents[breeding.second as int];
    let crossed = uniform_child(parent_a, parent_b, breeding.coins);
    let child = child_of(parents, breeding);

    // The first parent.
    let at_first = between(mutation, weights, parents, children);
    let choice_a = seq![Reply::Chosen(breeding.first)];
    lemma_after_all_push::<RouletteWheelRun>(
        fresh,
        Seq::empty(),
        Reply::Chosen(breeding.first),
    );
    assert(choice_a == Seq::<Reply>::empty().push(Reply::Chosen(breeding.first)));
    lemma_first_choice::<RouletteWheelSelection, UniformCrossover, GaussianMutation>(
        at_first,
        fresh,
        choice_a,
    );
    assert(settle(at_first) == at_first);

    // The second parent.
    let at_second = EvolutionState { phase: PhaseState::Second(breeding.first, fresh), ..at_first };
    assert(settle(
        EvolutionState {
            phase: PhaseState::First(after_all::<RouletteWheelRun>(fresh, choice_a)),
            ..at_first
        },
    ) == settle(at_second));
    let choice_b = seq![Reply::Chosen(breeding.second)];
    lemma_after_all_push::<RouletteWheelRun>(
        fresh,
        Seq::empty(),
        Reply::Chosen(breeding.second),
    );
    assert(choice_b == Seq::<Reply>::empty().push(Reply::Chosen(breeding.second)));
    lemma_second_choice::<RouletteWheelSelection, UniformCrossover, GaussianMutation>(
        at_second,
        breeding.first,
        fresh,
        choice_b,
    );

    // The crossing.
    let crossing = UniformCrossover.started(parent_a, parent_b)->Ok_0;
    let at_crossing = EvolutionState { phase: PhaseState::Crossing(crossing), ..at_first };
    assert(settle(
        EvolutionState {
            phase: PhaseState::Second(
                breeding.first,
                after_all::<RouletteWheelRun>(fresh, choice_b),
            ),
            ..at_first
        },
    ) == settle(at_crossing));
    lemma_uniform_crossover(parent_a, parent_b, breeding.coins);
    lemma_crossing::<RouletteWheelSelection, UniformCrossover, GaussianMutation>(
        at_crossing,
        crossing,
        flips(breeding.coins),
    );

    // The mutation.
    let mutating = mutation.started(crossed);
    let at_mutating = EvolutionState { phase: PhaseState::Mutating(mutating), ..at_first };
    assert(settle(
        EvolutionState {
            phase: PhaseState::Crossing(
                after_all::<UniformCrossoverRun>(crossing, flips(breeding.coins)),
            ),
            ..at_first
        },
    ) == settle(at_mutating));
    lemma_gaussian_mutation(mutation, crossed, breeding.draws);
    lemma_mutating::<RouletteWheelSelection, UniformCrossover, GaussianMutation>(
        at_mutating,
        mutating,
        answers(breeding.draws),
    );
    let at_last = between(mutation, weights, parents, children.push(child));
    assert(settle(
        EvolutionState {
            phase: PhaseState::Mutating(
                after_all::<GaussianMutationRun>(mutating, answers(breeding.draws)),
            ),
            ..at_first
        },
    ) == at_last) by {
        assert(settle(at_last) == at_last);
    }

    // One after the other.
    let one = choice_a;
    let two = one + choice_b;
    let three = two + flips(breeding.coins);
    lemma_after_all_concat::<ClassicEvolution<'a>>(at_first, one, choice_b);
    lemma_after_all_concat::<ClassicEvolution<'a>>(at_first, two, flips(breeding.coins));
    lemma_after_all_concat::<ClassicEvolution<'a>>(at_first, three, answers(breeding.draws));
}

/// What is drawn for the first children, one after the other, leads from the
/// beginning of a generation to the state after those children.
proof fn lemma_breedings<'a>(
    mutation: GaussianMutation,
    weights: Seq<u32>,
    parents: Seq<Seq<u32>>,
    breedings: Seq<Breeding>,
    length: nat,
)
    requires
        parents.len() == weights.len(),
        breedings.len() <= parents.len(),
        forall|i: int| 0 <= i < parents.len() ==> (#[trigger] parents[i]).len() == length,
        forall|k: int|
            0 <= k < breedings.len() ==> fits(#[trigger] breedings[k], parents.len(), length),
    ensures
        admits_all::<ClassicEvolution<'a>>(
            between(mutation, weights, parents, Seq::empty()),
            replies_for_all(breedings),
        ),
        after_all::<ClassicEvolution<'a>>(
            between(mutation, weights, parents, Seq::empty()),
            replies_for_all(breedings),
        ) == between(mutation, weights, parents, children_of(parents, breedings)),
    decreases breedings.len(),
{
    let start = between(mutation, weights, parents, Seq::empty());
    if breedings.len() == 0 {
        assert(children_of(parents, breedings) == Seq::<Seq<u32>>::empty());
    } else {
        let front = breedings.drop_last();
        let last = breedings.last();
        lemma_breedings(mutation, weights, parents, front, length);
        lemma_breeding(
            mutation,
            weights,
            parents,
            children_of(parents, front),
            last,
            length,
        );
        lemma_after_all_concat::<ClassicEvolution<'a>>(
            start,
            replies_for_all(front),
            replies_for(last),
        );
        assert(children_of(parents, front).push(child_of(parents, last)) == children_of(
            parents,
            breedings,
        ));
    }
}

/// The whole of a generation. With the parents, the coins and the draws of
/// each child, and with the mean, a generation of a population whose
/// chromosomes all have one length takes every reply and comes to its end.
/// What comes out are the children that are made of what was drawn for them,
/// in order, and the least and the greatest fitness of the population with
/// the mean as it was answered.
pub proof fn lemma_classic_evolve<'a>(
    algorithm: Classic,
    parents: Seq<Seq<u32>>,
    weights: Seq<u32>,
    breedings: Seq<Breeding>,
    mean: u32,
)
    requires
        parents.len() > 0,
        parents.len() == weights.len(),
        breedings.len() == parents.len(),
        forall|i: int| 0 <= i < parents.len() ==> (#[trigger] parents[i]).len() == parents[0].len(),
        forall|k: int|
            0 <= k < breedings.len() ==> fits(
                #[trigger] breedings[k],
                parents.len(),
                parents[0].len(),
            ),
    ensures
        algorithm.started(parents, weights) is Ok,
        ({
            let start = algorithm.started(parents, weights)->Ok_0;
            let replies = replies_for_all(breedings).push(Reply::Value(mean));
            let end = after_all::<ClassicEvolution<'a>>(start, replies);
            &&& admits_all::<ClassicEvolution<'a>>(start, replies)
            &&& ClassicEvolution::<'a>::pending(end) is None
            &&& ClassicEvolution::<'a>::outcome(end) == Ok::<(Seq<Seq<u32>>, Statistics), Error>(
                (
                    children_of(parents, breedings),
                    Statistics {
                        min_fitness: minimum(weights),
                        max_fitness: maximum(weights),
                        avg_fitness: mean,
                    },
                ),
            )
        }),
{
    let mutation = algorithm.mutation_method();
    let start = between(mutation, weights, parents, Seq::empty());
    assert(settle(start) == start);
    assert(algorithm.started(parents, weights) == Ok::<ClassicState, Error>(start));
    lemma_breedings(mutation, weights, parents, breedings, parents[0].len());
    lemma_after_all_push::<ClassicEvolution<'a>>(
        start,
        replies_for_all(breedings),
        Reply::Value(mean),
    );
}

} // verus!
