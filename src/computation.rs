use vstd::prelude::*;
use super::algebra::Effect;
use super::block::{Block, Coroutine, Never, Step};
use super::context::Context;

verus! {

/// Serves requests of one effect kind: answers with a result of kind `E`, or
/// declines by handing the request back unchanged.
pub trait Handler<E> where E: Effect {
    fn handle(&mut self, effect: E::Input) -> Result<E, E::Input>;
}

/// What a handler layer does with its handler's outcome: an answer goes to
/// the mailbox and nothing is surfaced; a declined request is surfaced as it
/// is, and the mailbox is left alone.
pub open spec fn settled<O, N>(outcome: Result<O, N>, slot: Option<O>) -> (Step<N>, Option<O>) {
    match outcome {
        Ok(v) => (Step::Busy, Some(v)),
        Err(y) => (Step::Yielded(y), slot),
    }
}

/// Applies a handler's outcome: stores an answer, or surfaces a declined
/// request.
pub fn settle<O, N>(outcome: Result<O, N>, mailbox: &mut Context<O>) -> (r: Step<N>)
    ensures
        (r, final(mailbox)@) == settled(outcome, old(mailbox)@),
{
    match outcome {
        Ok(v) => {
            mailbox.put(v);
            Step::Busy
        },
        Err(y) => Step::Yielded(y),
    }
}

/// A request that a handler answers is never surfaced: the layer reports
/// progress and the answer waits in the mailbox.
pub proof fn lemma_answer_not_surfaced<O, N>(v: O, slot: Option<O>)
    ensures
        settled(Ok::<O, N>(v), slot) == (Step::<N>::Busy, Some(v)),
        !(settled(Ok::<O, N>(v), slot).0 is Yielded),
{
}

/// A handler that declines leaves the request as it was and surfaces it as
/// the layer's own request, with the mailbox untouched.
pub proof fn lemma_decline_surfaces<O, N>(y: N, slot: Option<O>)
    ensures
        settled(Err::<O, N>(y), slot) == (Step::Yielded(y), slot),
{
}

/// With handlers stacked, a request reaches the next layer out exactly when
/// the inner handler declined it, unchanged; an answered one goes no further.
pub proof fn lemma_only_declined_reach_next<O, N>(o: Result<O, N>, slot: Option<O>, y: N)
    ensures
        settled(o, slot).0 == Step::Yielded(y) <==> o == Err::<O, N>(y),
        settled(o, slot).0 is Busy <==> o is Ok,
{
}

/// A computation with one more handler around it.
pub struct Handled<G, H> {
    inner: G,
    handler: H,
}

/// How a handler layer's step follows from its computation's step `s`:
/// completion and progress are passed on with the mailbox untouched; a
/// request is settled by the handler's outcome, answered or surfaced.
pub open spec fn passed_on<O, Y>(s: Step<Y>, r: Step<Y>, before: Option<O>, after: Option<O>) -> bool {
    match s {
        Step::Complete => r == Step::<Y>::Complete && after == before,
        Step::Busy => r == Step::<Y>::Busy && after == before,
        Step::Yielded(_) => exists|o: Result<O, Y>| (r, after) == settled(o, before),
    }
}

impl<G, H> Handled<G, H> {
    /// The computation inside and its handler.
    pub closed spec fn parts(&self) -> (G, H) {
        (self.inner, self.handler)
    }

    /// Follows up the computation's step `s`: a request goes to the handler,
    /// which is called for nothing else.
    pub fn follow<E>(&mut self, s: Step<E::Input>, mailbox: &mut Context<E>) -> (r: Step<E::Input>) where
        E: Effect,
        H: Handler<E>,

        ensures
            passed_on(s, r, old(mailbox)@, final(mailbox)@),
            !(s is Yielded) ==> *final(self) == *old(self),
            final(self).parts().0 == old(self).parts().0,
    {
        match s {
            Step::Complete => Step::Complete,
            Step::Busy => Step::Busy,
            Step::Yielded(y) => {
                let outcome = self.handler.handle(y);
                let ghost o = outcome;
                let r = settle(outcome, mailbox);
                assert((r, mailbox@) == settled(o, old(mailbox)@));
                r
            },
        }
    }
}

impl<E, G, H> Coroutine<E> for Handled<G, H> where
    E: Effect,
    G: Coroutine<E, Yield = E::Input>,
    H: Handler<E>,
 {
    type Yield = E::Input;

    fn resume(&mut self, mailbox: &mut Context<E>) -> (r: Step<E::Input>)
        ensures
            r is Complete ==> final(self).parts().1 == old(self).parts().1,
            exists|s: Step<E::Input>, mid: Option<E>|
                {
                    &&& passed_on(s, r, mid, final(mailbox)@)
                    &&& !(s is Yielded) ==> final(self).parts().1 == old(self).parts().1
                },
    {
        let s = self.inner.resume(mailbox);
        let ghost st = s;
        let ghost mid = mailbox@;
        let r = self.follow(s, mailbox);
        assert(passed_on(st, r, mid, mailbox@));
        assert(!(st is Yielded) ==> self.parts().1 == old(self).parts().1);
        r
    }
}

/// What a checked layer reports for its computation's step: a request is
/// kept aside as unhandled, and the run is halted, never completed.
pub open spec fn checked<Y>(s: Step<Y>, stray: Option<Y>) -> (Step<Never>, Option<Y>) {
    match s {
        Step::Yielded(y) => (Step::Busy, Some(y)),
        Step::Busy => (Step::Busy, stray),
        Step::Complete => (Step::Complete, stray),
    }
}

/// A computation that is meant to make no request any more. A request that
/// it makes all the same is kept as the stray request and halts it: from
/// then on it is not resumed and never reports `Complete`, so a run of it
/// fails.
pub struct Checked<G, Y> {
    inner: G,
    stray: Option<Y>,
}

impl<G, Y> Checked<G, Y> {
    /// The computation inside.
    pub closed spec fn checked_inner(&self) -> G {
        self.inner
    }

    /// The request that reached this layer unhandled, if one did.
    pub closed spec fn stray_request(&self) -> Option<Y> {
        self.stray
    }

    /// Applies the inner computation's step.
    pub fn check(&mut self, s: Step<Y>) -> (r: Step<Never>)
        ensures
            (r, final(self).stray_request()) == checked(s, old(self).stray_request()),
    {
        match s {
            Step::Yielded(y) => {
                self.stray = Some(y);
                Step::Busy
            },
            Step::Busy => Step::Busy,
            Step::Complete => Step::Complete,
        }
    }

    /// The request that reached this layer unhandled, if one did.
    pub fn stray(&self) -> (r: &Option<Y>)
        ensures
            *r == self.stray_request(),
    {
        &self.stray
    }
}

impl<E, G> Coroutine<E> for Checked<G, E::Input> where E: Effect, G: Coroutine<E, Yield = E::Input> {
    type Yield = Never;

    fn resume(&mut self, mailbox: &mut Context<E>) -> (r: Step<Never>)
        ensures
            !(r is Yielded),
            old(self).stray_request() is Some ==> r is Busy && *final(self) == *old(self),
            final(self).stray_request() != old(self).stray_request() ==> r is Busy,
            r is Complete ==> final(self).stray_request() is None,
    {
        if self.stray.is_some() {
            return Step::Busy;
        }
        let s = self.inner.resume(mailbox);
        self.check(s)
    }
}

/// A request that a handler answers never reaches a checked layer above it:
/// that layer reports progress and keeps no stray request.
pub proof fn lemma_answered_leaves_no_stray<O, N>(v: O, slot: Option<O>)
    ensures
        checked(settled(Ok::<O, N>(v), slot).0, None::<N>) == (Step::<Never>::Busy, None::<N>),
{
}

/// A run in which the computation's steps surface no request keeps no
/// stray request, however many steps it takes.
pub proof fn lemma_no_request_no_stray<Y>(steps: Seq<Step<Y>>)
    requires
        forall|i: int| 0 <= i < steps.len() ==> !(#[trigger] steps[i] is Yielded),
    ensures
        steps.fold_left(None::<Y>, |stray: Option<Y>, s: Step<Y>| checked(s, stray).1) == None::<Y>,
    decreases steps.len(),
{
    if steps.len() > 0 {
        let init = steps.drop_last();
        assert forall|i: int| 0 <= i < init.len() implies !(#[trigger] init[i] is Yielded) by {
            assert(init[i] == steps[i]);
        }
        lemma_no_request_no_stray(init);
        assert(!(steps[steps.len() - 1] is Yielded));
    }
}

impl<E, G> Block<E, G> where E: Effect, G: Coroutine<E, Yield = E::Input> {
    /// Declares every request handled: the result can be run. A request that
    /// comes out all the same is kept as the stray request and halts the
    /// run, which then never completes.
    pub fn assert_handled(self) -> (r: Block<E, Checked<G, E::Input>>)
        ensures
            r.mailbox() == self.mailbox(),
            r.completed() == self.completed(),
            r.inner().stray_request() == None::<E::Input>,
            r.inner().checked_inner() == self.inner(),
    {
        let (context, generator, done) = self.into_parts();
        Block::from_parts(context, Checked { inner: generator, stray: None }, done)
    }

    /// Wraps the computation with `handler`: requests it answers are put in
    /// the mailbox and the computation resumed, requests it declines are
    /// surfaced.
    pub fn add_handler<H: Handler<E>>(self, handler: H) -> (r: Block<E, Handled<G, H>>)
        ensures
            r.mailbox() == self.mailbox(),
            r.completed() == self.completed(),
            r.inner().parts() == (self.inner(), handler),
    {
        let (context, generator, done) = self.into_parts();
        Block::from_parts(context, Handled { inner: generator, handler }, done)
    }
}

} // verus!
