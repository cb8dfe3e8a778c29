use vstd::prelude::*;
use super::context::Context;

verus! {

/// An effect kind: a result type `Self` that answers requests of type `Input`.
pub trait Effect {
    type Input;
}

/// `Self` is a sum of effect results of which `Part` is one case: `take`
/// hands out the mailbox's value when it is of that case.
pub trait Select<Part> where Self: Sized + Effect {
    fn take(output: &mut Context<Self>) -> Option<Part>;
}

} // verus!
