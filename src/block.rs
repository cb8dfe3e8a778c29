use vstd::prelude::*;
use super::context::Context;

verus! {

/// The request type of a computation that can make no request: its field is
/// private and nothing in this crate builds one, so no value of it exists.
#[derive(Debug, PartialEq, Eq)]
pub struct Never {
    unbuilt: (),
}

/// What one resume of a computation comes to.
#[derive(Debug, PartialEq, Eq)]
pub enum Step<Y> {
    /// It stopped at a request that its caller has to answer.
    Yielded(Y),
    /// It made progress (it answered a request of its own, or served a
    /// sub-task) and stopped without a request: resume it again.
    Busy,
    /// It finished. It must not be resumed again.
    Complete,
}

/// A restartable computation whose answers arrive in a mailbox of `T`.
///
/// Each `resume` runs it up to its next stopping point. Implementors are the
/// computations themselves; a computation that has reported `Complete` is
/// never resumed again.
pub trait Coroutine<T> {
    type Yield;

    fn resume(&mut self, mailbox: &mut Context<T>) -> Step<Self::Yield>;
}

/// A computation together with its mailbox.
pub struct Block<T, G> {
    context: Context<T>,
    generator: G,
    done: bool,
}

/// Turns a computation into a `Block` with an empty mailbox.
pub trait IntoBlock<T, G> {
    fn into_block(self) -> Block<T, G>;
}

impl<T, G: Coroutine<T>> IntoBlock<T, G> for G {
    /// A fresh block: an empty mailbox, not completed, driving `self`.
    fn into_block(self) -> (r: Block<T, G>)
        ensures
            r.mailbox() == None::<T>,
            r.inner() == self,
            !r.completed(),
    {
        Block::new(self)
    }
}

impl<T, G> Block<T, G> {
    /// The value waiting in the mailbox.
    pub closed spec fn mailbox(&self) -> Option<T> {
        self.context@
    }

    /// The computation inside.
    pub closed spec fn inner(&self) -> G {
        self.generator
    }

    /// Whether the computation has reported `Complete`.
    pub closed spec fn completed(&self) -> bool {
        self.done
    }

    /// A block around `generator`, with an empty mailbox.
    pub fn new(generator: G) -> (r: Self)
        ensures
            r.mailbox() == None::<T>,
            r.inner() == generator,
            !r.completed(),
    {
        Block { context: Context::empty(), generator, done: false }
    }

    /// A block from its mailbox, its computation and whether it completed.
    pub(crate) fn from_parts(context: Context<T>, generator: G, done: bool) -> (r: Self)
        ensures
            r.mailbox() == context@,
            r.inner() == generator,
            r.completed() == done,
    {
        Block { context, generator, done }
    }

    /// The mailbox, the computation and whether it completed.
    pub(crate) fn into_parts(self) -> (r: (Context<T>, G, bool))
        ensures
            r.0@ == self.mailbox(),
            r.1 == self.inner(),
            r.2 == self.completed(),
    {
        (self.context, self.generator, self.done)
    }

    /// Stores `value` in the mailbox, where the computation finds it when it is
    /// resumed next. A value not taken yet is discarded.
    pub fn put(&mut self, value: T)
        ensures
            final(self).mailbox() == Some(value),
            final(self).inner() == old(self).inner(),
            final(self).completed() == old(self).completed(),
    {
        self.context.put(value);
    }

    /// Hands out the value waiting in the mailbox, if any, and empties it.
    pub fn take(&mut self) -> (r: Option<T>)
        ensures
            r == old(self).mailbox(),
            final(self).mailbox() == None::<T>,
            final(self).inner() == old(self).inner(),
            final(self).completed() == old(self).completed(),
    {
        self.context.take()
    }

    /// The mailbox.
    pub fn context(&self) -> (r: &Context<T>)
        ensures
            r@ == self.mailbox(),
    {
        &self.context
    }

    /// The computation inside.
    pub fn generator(&self) -> (r: &G)
        ensures
            *r == self.inner(),
    {
        &self.generator
    }

    /// Whether the computation has reported `Complete`.
    pub fn is_complete(&self) -> (r: bool)
        ensures
            r == self.completed(),
    {
        self.done
    }
}

impl<T, G: Coroutine<T>> Block<T, G> {
    /// Runs the computation up to its next stopping point.
    pub fn resume(&mut self) -> (r: Step<G::Yield>)
        requires
            !old(self).completed(),
        ensures
            final(self).completed() == (r is Complete),
    {
        let r = self.generator.resume(&mut self.context);
        if let Step::Complete = r {
            self.done = true;
        }
        r
    }
}

impl<T, G: Coroutine<T, Yield = Never>> Block<T, G> {
    /// Drives a computation that can make no request until it completes,
    /// resuming it at most `rounds` times. Returns whether it completed.
    pub fn run(&mut self, rounds: u64) -> (r: bool)
        ensures
            r == final(self).completed(),
            old(self).completed() ==> r,
    {
        let mut left: u64 = rounds;
        while !self.done && left > 0
            invariant
                old(self).completed() ==> self.completed(),
            decreases left,
        {
            match self.generator.resume(&mut self.context) {
                Step::Complete => {
                    self.done = true;
                },
                Step::Busy => {},
                // No `Never` value exists, so this arm is never taken.
                Step::Yielded(_) => {},
            }
            left = left - 1;
        }
        self.done
    }
}

} // verus!
