//! Choosing a parent.

use vstd::prelude::*;
use crate::error::Error;
use crate::protocol::{admits, Ask, Pass, Reply, Request};

verus! {

/// A way to choose one member of a population by the members' fitness.
pub trait SelectionMethod {
    /// The choosing of one member. What comes out is the member's index.
    type Run: Pass<Output = usize, Outcome = usize>;

    /// The state in which the choosing among members of the given fitness
    /// begins, or why it cannot begin.
    spec fn started(&self, weights: Seq<u32>) -> Result<<Self::Run as Pass>::Model, Error>;

    /// The number of members among which a state chooses.
    spec fn size(model: <Self::Run as Pass>::Model) -> nat;

    /// Choosing begins in a state that a pass can be in, and chooses among as
    /// many members as weights were given.
    proof fn lemma_started(&self, weights: Seq<u32>)
        ensures
            self.started(weights) matches Ok(model) ==> <Self::Run as Pass>::valid(model)
                && Self::size(model) == weights.len(),
    ;

    /// A reply does not change among how many members is chosen.
    proof fn lemma_size_kept(model: <Self::Run as Pass>::Model, reply: Reply)
        requires
            <Self::Run as Pass>::valid(model),
            admits(<Self::Run as Pass>::pending(model), reply),
        ensures
            Self::size(<Self::Run as Pass>::after(model, reply)) == Self::size(model),
    ;

    /// An index stands for itself.
    proof fn lemma_shown(index: usize)
        ensures
            <Self::Run as Pass>::shown(index) == index,
    ;

    /// What is chosen is one of the members.
    proof fn lemma_outcome_in_range(model: <Self::Run as Pass>::Model)
        requires
            <Self::Run as Pass>::valid(model),
            <Self::Run as Pass>::pending(model) is None,
        ensures
            <Self::Run as Pass>::outcome(model) < Self::size(model),
    ;

    /// Begins to choose one member. `weights` holds the fitness of each
    /// member, in the order of the population.
    fn select(&self, weights: &Vec<u32>) -> (run: Result<Self::Run, Error>)
        ensures
            run matches Ok(r) ==> self.started(weights@) == Ok::<
                <Self::Run as Pass>::Model,
                Error,
            >(r.model()) && <Self::Run as Pass>::valid(r.model()),
            run matches Err(e) ==> self.started(weights@) == Err::<
                <Self::Run as Pass>::Model,
                Error,
            >(e),
    ;
}

/// Chooses a member with a probability that is its share of the fitness of
/// all members, as a roulette wheel with unequal pockets would.
#[derive(Clone, Copy, Debug)]
pub struct RouletteWheelSelection;

/// One turn of the wheel.
#[derive(Debug)]
pub struct RouletteWheelRun {
    weights: Vec<u32>,
    chosen: Option<usize>,
}

/// The state of one turn of the wheel.
pub struct RouletteWheelState {
    /// The fitness of each member.
    pub weights: Seq<u32>,
    /// The index that the wheel stopped at, once it has.
    pub chosen: Option<usize>,
}

impl Pass for RouletteWheelRun {
    type Model = RouletteWheelState;

    type Output = usize;

    type Outcome = usize;

    closed spec fn model(&self) -> RouletteWheelState {
        RouletteWheelState { weights: self.weights@, chosen: self.chosen }
    }

    open spec fn valid(model: RouletteWheelState) -> bool {
        model.chosen matches Some(index) ==> index < model.weights.len()
    }

    /// The wheel asks once: to choose among all the weights.
    open spec fn pending(model: RouletteWheelState) -> Option<Ask> {
        if model.chosen is None {
            Some(Ask::Choose { weights: model.weights })
        } else {
            None
        }
    }

    open spec fn after(model: RouletteWheelState, reply: Reply) -> RouletteWheelState {
        match reply {
            Reply::Chosen(index) => RouletteWheelState { chosen: Some(index), ..model },
            _ => model,
        }
    }

    open spec fn outcome(model: RouletteWheelState) -> usize {
        model.chosen->0
    }

    open spec fn shown(output: usize) -> usize {
        output
    }

    proof fn lemma_after_valid(model: RouletteWheelState, reply: Reply) {
    }

    fn is_finished(&self) -> (finished: bool) {
        self.chosen.is_some()
    }

    fn request(&self) -> (request: Option<Request>) {
        if self.chosen.is_none() {
            Some(Request::Choose { weights: self.weights.clone() })
        } else {
            None
        }
    }

    fn reply(&mut self, reply: Reply) -> (accepted: bool) {
        match reply {
            Reply::Chosen(index) => {
                if self.chosen.is_none() && index < self.weights.len() {
                    self.chosen = Some(index);
                    true
                } else {
                    false
                }
            },
            _ => false,
        }
    }

    fn finish(self) -> (output: Option<usize>) {
        self.chosen
    }
}

impl SelectionMethod for RouletteWheelSelection {
    type Run = RouletteWheelRun;

    /// The wheel cannot turn for a population without members.
    open spec fn started(&self, weights: Seq<u32>) -> Result<RouletteWheelState, Error> {
        if weights.len() == 0 {
            Err(Error::EmptyPopulation)
        } else {
            Ok(RouletteWheelState { weights, chosen: None })
        }
    }

    open spec fn size(model: RouletteWheelState) -> nat {
        model.weights.len()
    }

    proof fn lemma_started(&self, weights: Seq<u32>) {
    }

    proof fn lemma_size_kept(model: RouletteWheelState, reply: Reply) {
    }

    proof fn lemma_shown(index: usize) {
    }

    proof fn lemma_outcome_in_range(model: RouletteWheelState) {
    }

    fn select(&self, weights: &Vec<u32>) -> (run: Result<RouletteWheelRun, Error>) {
        if weights.len() == 0 {
            Err(Error::EmptyPopulation)
        } else {
            Ok(RouletteWheelRun { weights: weights.clone(), chosen: None })
        }
    }
}

} // verus!
