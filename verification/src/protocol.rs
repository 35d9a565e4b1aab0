//! How this crate talks to what it cannot do itself.
//!
//! Drawing at random and doing arithmetic on single-precision numbers are left
//! to the caller. A computation that needs either is a [`Pass`]: it states
//! what it needs next as a [`Request`], takes the answer as a [`Reply`], and
//! goes on until it needs nothing more. Which requests are made, with which
//! arguments and in which order, is decided here; the caller only answers.

use vstd::prelude::*;

verus! {

/// What a pass needs next. Every number is a single-precision number, held by
/// its bit pattern.
#[derive(Debug)]
pub enum Request {
    /// Choose one of the given weights, each with a probability that is its
    /// share of their sum, and answer with its index: [`Reply::Chosen`].
    Choose { weights: Vec<u32> },
    /// Draw `true` with the given probability, and `false` otherwise:
    /// [`Reply::Flipped`].
    Flip { chance: u32 },
    /// Draw a number `u` evenly from zero (included) to one (excluded), and
    /// answer with `gene + coefficient * u`, or with `gene - coefficient * u`
    /// where `negative` is set: [`Reply::Value`].
    Perturb { gene: u32, coefficient: u32, negative: bool },
    /// Answer with the arithmetic mean of the given values: [`Reply::Value`].
    Average { values: Vec<u32> },
}

/// A request as a mathematical value.
pub enum Ask {
    Choose { weights: Seq<u32> },
    Flip { chance: u32 },
    Perturb { gene: u32, coefficient: u32, negative: bool },
    Average { values: Seq<u32> },
}

impl View for Request {
    type V = Ask;

    open spec fn view(&self) -> Ask {
        match *self {
            Request::Choose { weights } => Ask::Choose { weights: weights@ },
            Request::Flip { chance } => Ask::Flip { chance },
            Request::Perturb { gene, coefficient, negative } => Ask::Perturb {
                gene,
                coefficient,
                negative,
            },
            Request::Average { values } => Ask::Average { values: values@ },
        }
    }
}

/// The answer to a request.
#[derive(Clone, Copy, Debug, PartialEq, Eq, Structural)]
pub enum Reply {
    /// The index that was chosen.
    Chosen(usize),
    /// What was drawn.
    Flipped(bool),
    /// The number that was computed.
    Value(u32),
}

/// Whether a reply answers what was asked: an index into the weights for
/// [`Ask::Choose`], a draw for [`Ask::Flip`], a number for [`Ask::Perturb`]
/// and [`Ask::Average`]. Where nothing was asked, no reply does.
pub open spec fn admits(ask: Option<Ask>, reply: Reply) -> bool {
    match (ask, reply) {
        (Some(Ask::Choose { weights }), Reply::Chosen(index)) => index < weights.len(),
        (Some(Ask::Flip { .. }), Reply::Flipped(_)) => true,
        (Some(Ask::Perturb { .. }), Reply::Value(_)) => true,
        (Some(Ask::Average { .. }), Reply::Value(_)) => true,
        _ => false,
    }
}

/// A computation that goes on by asking.
///
/// Its state is described by a mathematical value, its model. The model says
/// what is asked next ([`Pass::pending`]), what the state is after a reply
/// ([`Pass::after`]), and, once nothing is asked, what has come out
/// ([`Pass::outcome`]).
pub trait Pass: Sized {
    /// The state as a mathematical value.
    type Model;

    /// What comes out.
    type Output;

    /// What comes out, as a mathematical value.
    type Outcome;

    /// The state of this pass.
    spec fn model(&self) -> Self::Model;

    /// Whether a model describes a state that a pass can be in.
    spec fn valid(model: Self::Model) -> bool;

    /// What is asked in a state, or `None` where the pass has come to its end.
    spec fn pending(model: Self::Model) -> Option<Ask>;

    /// The state after a reply that answers what was asked.
    spec fn after(model: Self::Model, reply: Reply) -> Self::Model;

    /// What has come out of a pass that has come to its end.
    spec fn outcome(model: Self::Model) -> Self::Outcome;

    /// An output as a mathematical value.
    spec fn shown(output: Self::Output) -> Self::Outcome;

    /// A reply that answers what was asked leads from a state that a pass can
    /// be in to another such state.
    proof fn lemma_after_valid(model: Self::Model, reply: Reply)
        requires
            Self::valid(model),
            admits(Self::pending(model), reply),
        ensures
            Self::valid(Self::after(model, reply)),
    ;

    /// Whether the pass has come to its end.
    fn is_finished(&self) -> (finished: bool)
        requires
            Self::valid(self.model()),
        ensures
            finished == (Self::pending(self.model()) is None),
    ;

    /// What the pass needs next, or `None` where it has come to its end.
    fn request(&self) -> (request: Option<Request>)
        requires
            Self::valid(self.model()),
        ensures
            request is None <==> Self::pending(self.model()) is None,
            request matches Some(asked) ==> Self::pending(self.model()) == Some(asked@),
    ;

    /// Takes the answer to the pending request. A reply that does not answer
    /// what was asked is not accepted, and leaves the pass as it was.
    fn reply(&mut self, reply: Reply) -> (accepted: bool)
        requires
            Self::valid(old(self).model()),
        ensures
            Self::valid(final(self).model()),
            accepted == admits(Self::pending(old(self).model()), reply),
            accepted ==> final(self).model() == Self::after(old(self).model(), reply),
            !accepted ==> final(self).model() == old(self).model(),
    ;

    /// What has come out, or `None` where the pass has not come to its end.
    fn finish(self) -> (output: Option<Self::Output>)
        requires
            Self::valid(self.model()),
        ensures
            output is Some <==> Self::pending(self.model()) is None,
            output matches Some(o) ==> Self::shown(o) == Self::outcome(self.model()),
    ;
}

/// The state after a sequence of replies, each taken in turn.
pub open spec fn after_all<P: Pass>(model: P::Model, replies: Seq<Reply>) -> P::Model
    decreases replies.len(),
{
    if replies.len() == 0 {
        model
    } else {
        P::after(after_all::<P>(model, replies.drop_last()), replies.last())
    }
}

/// Whether each reply of a sequence answers what is asked when its turn comes.
pub open spec fn admits_all<P: Pass>(model: P::Model, replies: Seq<Reply>) -> bool
    decreases replies.len(),
{
    replies.len() == 0 || (admits_all::<P>(model, replies.drop_last()) && admits(
        P::pending(after_all::<P>(model, replies.drop_last())),
        replies.last(),
    ))
}

/// Replies that answer what was asked, one after the other, lead from a state
/// that a pass can be in to another such state.
pub proof fn lemma_after_all_valid<P: Pass>(model: P::Model, replies: Seq<Reply>)
    requires
        P::valid(model),
        admits_all::<P>(model, replies),
    ensures
        P::valid(after_all::<P>(model, replies)),
    decreases replies.len(),
{
    if replies.len() > 0 {
        lemma_after_all_valid::<P>(model, replies.drop_last());
        P::lemma_after_valid(after_all::<P>(model, replies.drop_last()), replies.last());
    }
}

/// Taking one more reply is taking the reply in the state that the others
/// led to.
pub proof fn lemma_after_all_push<P: Pass>(model: P::Model, replies: Seq<Reply>, reply: Reply)
    ensures
        after_all::<P>(model, replies.push(reply)) == P::after(
            after_all::<P>(model, replies),
            reply,
        ),
        admits_all::<P>(model, replies.push(reply)) == (admits_all::<P>(model, replies) && admits(
            P::pending(after_all::<P>(model, replies)),
            reply,
        )),
{
    assert(replies.push(reply).drop_last() == replies);
}

/// Taking one sequence of replies after another is taking the two as one.
pub proof fn lemma_after_all_concat<P: Pass>(
    model: P::Model,
    first: Seq<Reply>,
    second: Seq<Reply>,
)
    ensures
        after_all::<P>(model, first + second) == after_all::<P>(
            after_all::<P>(model, first),
            second,
        ),
        admits_all::<P>(model, first + second) == (admits_all::<P>(model, first) && admits_all::<P>(
            after_all::<P>(model, first),
            second,
        )),
    decreases second.len(),
{
    if second.len() == 0 {
        assert(first + second == first);
    } else {
        assert((first + second).drop_last() == first + second.drop_last());
        lemma_after_all_concat::<P>(model, first, second.drop_last());
    }
}

} // verus!
