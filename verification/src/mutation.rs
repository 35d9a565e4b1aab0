//! Changing a child at random.

use vstd::prelude::*;
use crate::binary32::{is_probability, spec_is_probability, HALF};
use crate::chromosome::Chromosome;
use crate::error::Error;
use crate::protocol::{
    admits_all, after_all, lemma_after_all_concat, lemma_after_all_push, Ask, Pass, Reply,
    Request,
};

verus! {

/// A way to change a chromosome at random.
pub trait MutationMethod {
    /// The changing of one chromosome. What comes out is the chromosome as
    /// changed.
    type Run: Pass<Output = Chromosome, Outcome = Seq<u32>>;

    /// The state in which the changing of a chromosome begins.
    spec fn started(&self, child: Seq<u32>) -> <Self::Run as Pass>::Model;

    /// Changing begins in a state that a pass can be in.
    proof fn lemma_started(&self, child: Seq<u32>)
        ensures
            <Self::Run as Pass>::valid(self.started(child)),
    ;

    /// A chromosome stands for its genes.
    proof fn lemma_shown(child: Chromosome)
        ensures
            <Self::Run as Pass>::shown(child) == child@,
    ;

    /// Begins to change a chromosome.
    fn mutate(&self, child: Chromosome) -> (run: Self::Run)
        ensures
            run.model() == self.started(child@),
            <Self::Run as Pass>::valid(run.model()),
    ;
}

/// Goes through the genes in order and, with a fixed chance for each, adds to
/// the gene or takes from it a random share of a fixed coefficient.
#[derive(Clone, Copy, Debug)]
pub struct GaussianMutation {
    chance: u32,
    coeff: u32,
}

/// What a mutation waits for at the gene it has come to.
#[derive(Clone, Copy, Debug, PartialEq, Eq, Structural)]
pub enum Stage {
    /// The draw that decides the sign of the change.
    Sign,
    /// The draw that decides whether the gene is changed at all.
    Touch,
    /// The gene as changed.
    Magnitude,
}

/// One mutation of one chromosome.
#[derive(Debug)]
pub struct GaussianMutationRun {
    chance: u32,
    coeff: u32,
    genes: Vec<u32>,
    position: usize,
    stage: Stage,
    negative: bool,
}

/// The state of one mutation.
pub struct GaussianMutationState {
    /// The probability with which a gene is changed.
    pub chance: u32,
    /// The largest amount by which a gene is changed.
    pub coeff: u32,
    /// The genes as they are now.
    pub genes: Seq<u32>,
    /// The position of the gene that the mutation has come to.
    pub position: nat,
    /// What the mutation waits for at that gene.
    pub stage: Stage,
    /// Whether the sign that was drawn for that gene is the negative one.
    pub negative: bool,
}

impl GaussianMutation {
    /// The probability with which a gene is changed.
    pub closed spec fn chance(&self) -> u32 {
        self.chance
    }

    /// The largest amount by which a gene is changed.
    pub closed spec fn coeff(&self) -> u32 {
        self.coeff
    }

    /// A mutation that changes each gene with probability `chance`, by at
    /// most `coeff`. A `chance` that is no number from zero to one is refused.
    pub fn new(chance: u32, coeff: u32) -> (mutation: Result<GaussianMutation, Error>)
        ensures
            spec_is_probability(chance) ==> (mutation matches Ok(m) && m.chance() == chance
                && m.coeff() == coeff),
            !spec_is_probability(chance) ==> mutation == Err::<GaussianMutation, Error>(
                Error::InvalidParameter,
            ),
    {
        if is_probability(chance) {
            Ok(GaussianMutation { chance, coeff })
        } else {
            Err(Error::InvalidParameter)
        }
    }
}

impl Pass for GaussianMutationRun {
    type Model = GaussianMutationState;

    type Output = Chromosome;

    type Outcome = Seq<u32>;

    closed spec fn model(&self) -> GaussianMutationState {
        GaussianMutationState {
            chance: self.chance,
            coeff: self.coeff,
            genes: self.genes@,
            position: self.position as nat,
            stage: self.stage,
            negative: self.negative,
        }
    }

    /// The mutation has not gone past the last gene, and after the last gene
    /// it waits for nothing.
    open spec fn valid(model: GaussianMutationState) -> bool {
        &&& model.position <= model.genes.len()
        &&& model.position == model.genes.len() ==> model.stage == Stage::Sign
    }

    /// For each gene in order: first a fair coin for the sign; then a draw
    /// with the mutation's chance for whether the gene is changed; then, only
    /// where that draw came up `true`, the changed gene.
    open spec fn pending(model: GaussianMutationState) -> Option<Ask> {
        if model.position >= model.genes.len() {
            None
        } else {
            match model.stage {
                Stage::Sign => Some(Ask::Flip { chance: HALF }),
                Stage::Touch => Some(Ask::Flip { chance: model.chance }),
                Stage::Magnitude => Some(
                    Ask::Perturb {
                        gene: model.genes[model.position as int],
                        coefficient: model.coeff,
                        negative: model.negative,
                    },
                ),
            }
        }
    }

    /// The coin for the sign is kept. The draw for the change either asks for
    /// the changed gene or leaves the gene and goes on to the next. The
    /// changed gene takes the gene's place, and the mutation goes on to the
    /// next.
    open spec fn after(model: GaussianMutationState, reply: Reply) -> GaussianMutationState {
        match (model.stage, reply) {
            (Stage::Sign, Reply::Flipped(negative)) => GaussianMutationState {
                stage: Stage::Touch,
                negative,
                ..model
            },
            (Stage::Touch, Reply::Flipped(touched)) => if touched {
                GaussianMutationState { stage: Stage::Magnitude, ..model }
            } else {
                GaussianMutationState { position: model.position + 1, stage: Stage::Sign, ..model }
            },
            (Stage::Magnitude, Reply::Value(gene)) => GaussianMutationState {
                genes: model.genes.update(model.position as int, gene),
                position: model.position + 1,
                stage: Stage::Sign,
                ..model
            },
            _ => model,
        }
    }

    open spec fn outcome(model: GaussianMutationState) -> Seq<u32> {
        model.genes
    }

    open spec fn shown(output: Chromosome) -> Seq<u32> {
        output@
    }

    proof fn lemma_after_valid(model: GaussianMutationState, reply: Reply) {
    }

    fn is_finished(&self) -> (finished: bool) {
        self.position >= self.genes.len()
    }

    fn request(&self) -> (request: Option<Request>) {
        if self.position >= self.genes.len() {
            None
        } else {
            match self.stage {
                Stage::Sign => Some(Request::Flip { chance: HALF }),
                Stage::Touch => Some(Request::Flip { chance: self.chance }),
                Stage::Magnitude => Some(
                    Request::Perturb {
                        gene: self.genes[self.position],
                        coefficient: self.coeff,
                        negative: self.negative,
                    },
                ),
            }
        }
    }

    fn reply(&mut self, reply: Reply) -> (accepted: bool) {
        if self.position >= self.genes.len() {
            return false;
        }
        match (self.stage, reply) {
            (Stage::Sign, Reply::Flipped(negative)) => {
                self.stage = Stage::Touch;
                self.negative = negative;
                true
            },
            (Stage::Touch, Reply::Flipped(touched)) => {
                if touched {
                    self.stage = Stage::Magnitude;
                } else {
                    self.position = self.position + 1;
                    self.stage = Stage::Sign;
                }
                true
            },
            (Stage::Magnitude, Reply::Value(gene)) => {
                self.genes.set(self.position, gene);
                self.position = self.position + 1;
                self.stage = Stage::Sign;
                true
            },
            _ => false,
        }
    }

    fn finish(self) -> (output: Option<Chromosome>) {
        if self.position >= self.genes.len() {
            Some(Chromosome::from_iter(self.genes))
        } else {
            None
        }
    }
}

impl MutationMethod for GaussianMutation {
    type Run = GaussianMutationRun;

    /// The mutation begins at the first gene, with the draw for its sign.
    open spec fn started(&self, child: Seq<u32>) -> GaussianMutationState {
        GaussianMutationState {
            chance: self.chance(),
            coeff: self.coeff(),
            genes: child,
            position: 0,
            stage: Stage::Sign,
            negative: false,
        }
    }

    proof fn lemma_started(&self, child: Seq<u32>) {
    }

    proof fn lemma_shown(child: Chromosome) {
    }

    fn mutate(&self, child: Chromosome) -> (run: GaussianMutationRun) {
        GaussianMutationRun {
            chance: self.chance,
            coeff: self.coeff,
            genes: child.into_iter(),
            position: 0,
            stage: Stage::Sign,
            negative: false,
        }
    }
}

/// Whether no draw of a sequence of replies decides that a gene is changed:
/// each reply that is taken while the mutation waits for that decision is
/// `Flipped(false)`.
pub open spec fn spares(model: GaussianMutationState, replies: Seq<Reply>) -> bool
    decreases replies.len(),
{
    replies.len() == 0 || (spares(model, replies.drop_last()) && (after_all::<GaussianMutationRun>(
        model,
        replies.drop_last(),
    ).stage == Stage::Touch ==> replies.last() == Reply::Flipped(false)))
}

/// No reply changes the number of genes, or the mutation's two parameters.
pub proof fn lemma_mutation_keeps_length(model: GaussianMutationState, replies: Seq<Reply>)
    requires
        GaussianMutationRun::valid(model),
        admits_all::<GaussianMutationRun>(model, replies),
    ensures
        after_all::<GaussianMutationRun>(model, replies).genes.len() == model.genes.len(),
        after_all::<GaussianMutationRun>(model, replies).chance == model.chance,
        after_all::<GaussianMutationRun>(model, replies).coeff == model.coeff,
    decreases replies.len(),
{
    if replies.len() > 0 {
        lemma_mutation_keeps_length(model, replies.drop_last());
    }
}

/// Where no draw decides that a gene is changed, the genes stay as they were:
/// a mutation whose chance never comes true changes nothing.
pub proof fn lemma_spared_genes_stay(
    mutation: GaussianMutation,
    child: Seq<u32>,
    replies: Seq<Reply>,
)
    requires
        admits_all::<GaussianMutationRun>(mutation.started(child), replies),
        spares(mutation.started(child), replies),
    ensures
        after_all::<GaussianMutationRun>(mutation.started(child), replies).genes == child,
        after_all::<GaussianMutationRun>(mutation.started(child), replies).stage
            != Stage::Magnitude,
    decreases replies.len(),
{
    if replies.len() > 0 {
        lemma_spared_genes_stay(mutation, child, replies.drop_last());
    }
}

/// What is drawn for one gene: the sign, and the gene as changed where the
/// gene is changed at all.
pub struct GeneDraw {
    pub negative: bool,
    pub changed: Option<u32>,
}

/// The replies that hand over what is drawn for one gene: the sign, whether
/// the gene is changed, and the gene as changed where it is.
pub open spec fn answers_for(draw: GeneDraw) -> Seq<Reply> {
    match draw.changed {
        Some(gene) => seq![Reply::Flipped(draw.negative), Reply::Flipped(true), Reply::Value(gene)],
        None => seq![Reply::Flipped(draw.negative), Reply::Flipped(false)],
    }
}

/// The replies that hand over what is drawn for the first genes, gene by gene.
pub open spec fn answers(draws: Seq<GeneDraw>) -> Seq<Reply>
    decreases draws.len(),
{
    if draws.len() == 0 {
        Seq::empty()
    } else {
        answers(draws.drop_last()) + answers_for(draws.last())
    }
}

/// The genes after what is drawn for the first of them: each gene that is
/// changed is the gene as changed, every other gene is as it was.
pub open spec fn mutated(child: Seq<u32>, draws: Seq<GeneDraw>) -> Seq<u32> {
    Seq::new(
        child.len(),
        |i: int|
            if i < draws.len() && draws[i].changed is Some {
                draws[i].changed->0
            } else {
                child[i]
            },
    )
}

/// A mutation takes what is drawn gene by gene, for no more genes than there
/// are. After that it has come to the next gene and waits for its sign, and
/// the genes are as [`mutated`] says. With a draw for each gene it has come to
/// its end.
pub proof fn lemma_gaussian_mutation(
    mutation: GaussianMutation,
    child: Seq<u32>,
    draws: Seq<GeneDraw>,
)
    requires
        draws.len() <= child.len(),
    ensures
        admits_all::<GaussianMutationRun>(mutation.started(child), answers(draws)),
        after_all::<GaussianMutationRun>(mutation.started(child), answers(draws)).genes == mutated(
            child,
            draws,
        ),
        after_all::<GaussianMutationRun>(mutation.started(child), answers(draws)).position
            == draws.len(),
        after_all::<GaussianMutationRun>(mutation.started(child), answers(draws)).stage
            == Stage::Sign,
        after_all::<GaussianMutationRun>(mutation.started(child), answers(draws)).chance
            == mutation.chance(),
        after_all::<GaussianMutationRun>(mutation.started(child), answers(draws)).coeff
            == mutation.coeff(),
        draws.len() == child.len() ==> GaussianMutationRun::pending(
            after_all::<GaussianMutationRun>(mutation.started(child), answers(draws)),
        ) is None,
    decreases draws.len(),
{
    let start = mutation.started(child);
    if draws.len() == 0 {
        assert(mutated(child, draws) == child);
    } else {
        let front = draws.drop_last();
        let last = draws.last();
        lemma_gaussian_mutation(mutation, child, front);
        lemma_after_all_concat::<GaussianMutationRun>(start, answers(front), answers_for(last));
        let before = after_all::<GaussianMutationRun>(start, answers(front));
        let none = Seq::<Reply>::empty();
        let one = none.push(Reply::Flipped(last.negative));
        lemma_after_all_push::<GaussianMutationRun>(before, none, Reply::Flipped(last.negative));
        match last.changed {
            Some(gene) => {
                let two = one.push(Reply::Flipped(true));
                lemma_after_all_push::<GaussianMutationRun>(before, one, Reply::Flipped(true));
                lemma_after_all_push::<GaussianMutationRun>(before, two, Reply::Value(gene));
                assert(answers_for(last) == two.push(Reply::Value(gene)));
                assert(mutated(child, draws) == mutated(child, front).update(
                    front.len() as int,
                    gene,
                ));
            },
            None => {
                lemma_after_all_push::<GaussianMutationRun>(before, one, Reply::Flipped(false));
                assert(answers_for(last) == one.push(Reply::Flipped(false)));
                assert(mutated(child, draws) == mutated(child, front));
            },
        }
    }
}

/// Where the draws for a gene say that it is changed, the changed gene is
/// asked for with the gene as it was, the mutation's coefficient and the sign
/// that was drawn for it.
pub proof fn lemma_gaussian_mutation_asks(
    mutation: GaussianMutation,
    child: Seq<u32>,
    draws: Seq<GeneDraw>,
    negative: bool,
)
    requires
        draws.len() < child.len(),
    ensures
        GaussianMutationRun::pending(
            after_all::<GaussianMutationRun>(
                mutation.started(child),
                answers(draws) + seq![Reply::Flipped(negative), Reply::Flipped(true)],
            ),
        ) == Some(
            Ask::Perturb {
                gene: child[draws.len() as int],
                coefficient: mutation.coeff(),
                negative,
            },
        ),
{
    let start = mutation.started(child);
    let none = Seq::<Reply>::empty();
    let one = none.push(Reply::Flipped(negative));
    lemma_gaussian_mutation(mutation, child, draws);
    lemma_after_all_concat::<GaussianMutationRun>(
        start,
        answers(draws),
        one.push(Reply::Flipped(true)),
    );
    let before = after_all::<GaussianMutationRun>(start, answers(draws));
    lemma_after_all_push::<GaussianMutationRun>(before, none, Reply::Flipped(negative));
    lemma_after_all_push::<GaussianMutationRun>(before, one, Reply::Flipped(true));
    assert(seq![Reply::Flipped(negative), Reply::Flipped(true)] == one.push(Reply::Flipped(true)));
}

} // verus!
