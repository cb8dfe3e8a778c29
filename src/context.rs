use vstd::prelude::*;

verus! {

/// What a slot holds after `put(v)`: the new value, whatever was there.
pub open spec fn slot_after_put<T>(slot: Option<T>, v: T) -> Option<T> {
    Some(v)
}

/// What `take` hands back from a slot, and what the slot holds afterwards.
pub open spec fn slot_after_take<T>(slot: Option<T>) -> (Option<T>, Option<T>) {
    (slot, None)
}

/// A single-slot mailbox: the most recent answer to a suspended computation.
///
/// A new value overwrites one that was not taken yet; nothing is queued.
pub struct Context<T> {
    slot: Option<T>,
}

impl<T> View for Context<T> {
    type V = Option<T>;

    closed spec fn view(&self) -> Option<T> {
        self.slot
    }
}

impl<T> Context<T> {
    /// A mailbox that holds nothing.
    pub fn empty() -> (r: Self)
        ensures
            r@ == None::<T>,
    {
        Context { slot: None }
    }

    /// Hands out the value held, if any, and leaves the mailbox empty.
    pub fn take(&mut self) -> (r: Option<T>)
        ensures
            (r, final(self)@) == slot_after_take(old(self)@),
    {
        let r = self.slot.take();
        r
    }

    /// Stores `value`, discarding a value that was not taken.
    pub fn put(&mut self, value: T)
        ensures
            final(self)@ == slot_after_put(old(self)@, value),
    {
        self.slot = Some(value);
    }

    /// Whether a value waits to be taken.
    pub fn is_full(&self) -> (r: bool)
        ensures
            r == self@.is_some(),
    {
        self.slot.is_some()
    }
}

/// Two writes before a read: the read sees the second value, once; a read
/// after that finds the mailbox empty.
pub proof fn lemma_single_slot<T>(slot: Option<T>, a: T, b: T)
    ensures
        slot_after_take(slot_after_put(slot_after_put(slot, a), b)).0 == Some(b),
        slot_after_take(slot_after_take(slot_after_put(slot_after_put(slot, a), b)).1).0
            == None::<T>,
{
}

} // verus!
