//! Combining two parents into a child.

use vstd::prelude::*;
use crate::binary32::HALF;
use crate::chromosome::Chromosome;
use crate::error::Error;
use crate::protocol::{admits_all, after_all, Ask, Pass, Reply, Request};

verus! {

/// A way to make one chromosome out of two.
pub trait CrossoverMethod {
    /// The making of one child. What comes out is the child.
    type Run: Pass<Output = Chromosome, Outcome = Seq<u32>>;

    /// The state in which the crossing of two parents begins, or why it cannot
    /// begin.
    spec fn started(&self, parent_a: Seq<u32>, parent_b: Seq<u32>) -> Result<
        <Self::Run as Pass>::Model,
        Error,
    >;

    /// Crossing begins in a state that a pass can be in.
    proof fn lemma_started(&self, parent_a: Seq<u32>, parent_b: Seq<u32>)
        ensures
            self.started(parent_a, parent_b) matches Ok(model) ==> <Self::Run as Pass>::valid(
                model,
            ),
    ;

    /// A child stands for its genes.
    proof fn lemma_shown(child: Chromosome)
        ensures
            <Self::Run as Pass>::shown(child) == child@,
    ;

    /// Begins to cross two parents.
    fn crossover(&self, parent_a: &Chromosome, parent_b: &Chromosome) -> (run: Result<
        Self::Run,
        Error,
    >)
        ensures
            run matches Ok(r) ==> self.started(parent_a@, parent_b@) == Ok::<
                <Self::Run as Pass>::Model,
                Error,
            >(r.model()) && <Self::Run as Pass>::valid(r.model()),
            run matches Err(e) ==> self.started(parent_a@, parent_b@) == Err::<
                <Self::Run as Pass>::Model,
                Error,
            >(e),
    ;
}

/// Takes each gene of the child from one parent or the other, at the same
/// position, as a fair coin decides anew for every gene. No gene is made up.
#[derive(Clone, Copy, Debug)]
pub struct UniformCrossover;

/// One crossing of two parents of equal length.
#[derive(Debug)]
pub struct UniformCrossoverRun {
    parent_a: Vec<u32>,
    parent_b: Vec<u32>,
    child: Vec<u32>,
}

/// The state of one crossing.
pub struct UniformCrossoverState {
    /// The genes of the first parent.
    pub parent_a: Seq<u32>,
    /// The genes of the second parent.
    pub parent_b: Seq<u32>,
    /// The genes of the child that have been decided, from the first on.
    pub child: Seq<u32>,
}

impl Pass for UniformCrossoverRun {
    type Model = UniformCrossoverState;

    type Output = Chromosome;

    type Outcome = Seq<u32>;

    closed spec fn model(&self) -> UniformCrossoverState {
        UniformCrossoverState {
            parent_a: self.parent_a@,
            parent_b: self.parent_b@,
            child: self.child@,
        }
    }

    open spec fn valid(model: UniformCrossoverState) -> bool {
        model.parent_a.len() == model.parent_b.len() && model.child.len() <= model.parent_a.len()
    }

    /// A fair coin is asked for as long as a gene is left to decide.
    open spec fn pending(model: UniformCrossoverState) -> Option<Ask> {
        if model.child.len() < model.parent_a.len() {
            Some(Ask::Flip { chance: HALF })
        } else {
            None
        }
    }

    /// The next gene is the first parent's where the coin came up `true`, and
    /// the second parent's where it did not.
    open spec fn after(model: UniformCrossoverState, reply: Reply) -> UniformCrossoverState {
        let position = model.child.len() as int;
        match reply {
            Reply::Flipped(first) => UniformCrossoverState {
                child: model.child.push(
                    if first {
                        model.parent_a[position]
                    } else {
                        model.parent_b[position]
                    },
                ),
                ..model
            },
            _ => model,
        }
    }

    open spec fn outcome(model: UniformCrossoverState) -> Seq<u32> {
        model.child
    }

    open spec fn shown(output: Chromosome) -> Seq<u32> {
        output@
    }

    proof fn lemma_after_valid(model: UniformCrossoverState, reply: Reply) {
    }

    fn is_finished(&self) -> (finished: bool) {
        self.child.len() >= self.parent_a.len()
    }

    fn request(&self) -> (request: Option<Request>) {
        if self.child.len() < self.parent_a.len() {
            Some(Request::Flip { chance: HALF })
        } else {
            None
        }
    }

    fn reply(&mut self, reply: Reply) -> (accepted: bool) {
        let position = self.child.len();
        match reply {
            Reply::Flipped(first) => {
                if position < self.parent_a.len() {
                    let gene = if first {
                        self.parent_a[position]
                    } else {
                        self.parent_b[position]
                    };
                    self.child.push(gene);
                    true
                } else {
                    false
                }
            },
            _ => false,
        }
    }

    fn finish(self) -> (output: Option<Chromosome>) {
        if self.child.len() >= self.parent_a.len() {
            Some(Chromosome::from_iter(self.child))
        } else {
            None
        }
    }
}

impl CrossoverMethod for UniformCrossover {
    type Run = UniformCrossoverRun;

    /// Parents of unequal length cannot be crossed.
    open spec fn started(&self, parent_a: Seq<u32>, parent_b: Seq<u32>) -> Result<
        UniformCrossoverState,
        Error,
    > {
        if parent_a.len() != parent_b.len() {
            Err(Error::LengthMismatch)
        } else {
            Ok(UniformCrossoverState { parent_a, parent_b, child: Seq::empty() })
        }
    }

    proof fn lemma_started(&self, parent_a: Seq<u32>, parent_b: Seq<u32>) {
    }

    proof fn lemma_shown(child: Chromosome) {
    }

    fn crossover(&self, parent_a: &Chromosome, parent_b: &Chromosome) -> (run: Result<
        UniformCrossoverRun,
        Error,
    >) {
        if parent_a.len() != parent_b.len() {
            Err(Error::LengthMismatch)
        } else {
            Ok(
                UniformCrossoverRun {
                    parent_a: parent_a.clone().into_iter(),
                    parent_b: parent_b.clone().into_iter(),
                    child: Vec::new(),
                },
            )
        }
    }
}

/// The replies that hand over the given coins, in order.
pub open spec fn flips(coins: Seq<bool>) -> Seq<Reply> {
    Seq::new(coins.len(), |i: int| Reply::Flipped(coins[i]))
}

/// The child that the given coins make of two parents: gene by gene the
/// first parent's where the coin came up `true`, the second parent's where
/// it did not.
pub open spec fn uniform_child(parent_a: Seq<u32>, parent_b: Seq<u32>, coins: Seq<bool>) -> Seq<
    u32,
> {
    Seq::new(
        coins.len(),
        |i: int|
            if coins[i] {
                parent_a[i]
            } else {
                parent_b[i]
            },
    )
}

/// As long as no more coins have been handed over than the parents have
/// genes, every coin is taken, and the child so far is what the coins make
/// of the parents. With one coin for each gene the crossing has come to its
/// end, and the child has as many genes as each parent.
pub proof fn lemma_uniform_crossover(parent_a: Seq<u32>, parent_b: Seq<u32>, coins: Seq<bool>)
    requires
        parent_a.len() == parent_b.len(),
        coins.len() <= parent_a.len(),
    ensures
        UniformCrossover.started(parent_a, parent_b) matches Ok(start) && admits_all::<
            UniformCrossoverRun,
        >(start, flips(coins)) && after_all::<UniformCrossoverRun>(start, flips(coins))
            == (UniformCrossoverState {
            parent_a,
            parent_b,
            child: uniform_child(parent_a, parent_b, coins),
        }) && (coins.len() == parent_a.len() ==> UniformCrossoverRun::pending(
            after_all::<UniformCrossoverRun>(start, flips(coins)),
        ) is None),
    decreases coins.len(),
{
    let start = UniformCrossover.started(parent_a, parent_b)->Ok_0;
    if coins.len() == 0 {
        assert(uniform_child(parent_a, parent_b, coins) == Seq::<u32>::empty());
    } else {
        let front = coins.drop_last();
        lemma_uniform_crossover(parent_a, parent_b, front);
        assert(flips(coins).drop_last() == flips(front));
        assert(uniform_child(parent_a, parent_b, front).push(
            if coins.last() {
                parent_a[front.len() as int]
            } else {
                parent_b[front.len() as int]
            },
        ) == uniform_child(parent_a, parent_b, coins));
    }
}

} // verus!
